//! The inline caches of send sites agree with the search of the classes.

use crate::graph::Objects;
use crate::heap::HeapView;
use crate::installs::{present, sites_empty};
use crate::machine::Machine;
use crate::safepoints::lemma_beside_store;
use crate::sliding::{compaction_keeps, law_compaction_keeps_graph};
use crate::soundness::{lemma_lies, lemma_others};
use crate::survival::{
    carried, follows, law_scavenge_keeps_graph, same_graph, scavenge_keeps,
};
use crate::treaty::{
    BEHAVIOR_CLASS_INDEX, BEHAVIOR_METHOD_DICTIONARY, BEHAVIOR_SUPERCLASS, MDICT_KEYS,
    MDICT_NUM_VM_SLOTS, MDICT_VALUES, SITE_CACHE_CLASS, SITE_CACHE_METHOD, SITE_SELECTOR,
    SITE_STATIC_CLASS, SITE_STRIDE, SPECIAL_NIL,
};
use crate::value::{lemma_untag_bits, Value};
use crate::vm::VmView;
use vstd::prelude::*;

verus! {

/// The objects that a search of the classes may read: the classes, their
/// method dictionaries, and the arrays of those.
#[verifier::ext_equal]
pub struct Searched {
    pub classes: Set<int>,
    pub dicts: Set<int>,
    pub arrays: Set<int>,
}

impl Searched {
    pub open spec fn holds(self, a: int) -> bool {
        self.classes.contains(a) || self.dicts.contains(a) || self.arrays.contains(a)
    }
}

/// A value that points into the heap points into a set.
pub open spec fn points_in(h: HeapView, x: Value, s: Set<int>) -> bool {
    h.plausible(x.addr()) ==> s.contains(x.addr())
}

/// A search of the classes of a machine reads no other objects.
pub open spec fn covers(v: VmView, d: Searched) -> bool {
    let h = v.heap;
    &&& forall|k: int|
        0 <= k < v.class_table.len() ==> points_in(h, #[trigger] v.class_table[k], d.classes)
    &&& forall|c: int| #[trigger]
        d.classes.contains(c) ==> points_in(
            h,
            h.slot(c, BEHAVIOR_SUPERCLASS as int),
            d.classes,
        ) && points_in(h, h.slot(c, BEHAVIOR_METHOD_DICTIONARY as int), d.dicts)
    &&& forall|a: int| #[trigger]
        d.dicts.contains(a) ==> points_in(h, h.slot(a, MDICT_KEYS as int), d.arrays) && points_in(
            h,
            h.slot(a, MDICT_VALUES as int),
            d.arrays,
        )
}

/// Two heaps hold the same object at `a`.
pub open spec fn same_there(h: HeapView, r: HeapView, a: int) -> bool {
    &&& r.hdr(a) == h.hdr(a)
    &&& r.nslots(a) == h.nslots(a)
    &&& forall|i: int| 0 <= i < h.nslots(a) ==> #[trigger] r.slot(a, i) == h.slot(a, i)
}

/// Two machines agree on what a search of the classes reads.
pub open spec fn same_search(v: VmView, w: VmView, d: Searched) -> bool {
    &&& w.class_table == v.class_table
    &&& w.nil() == v.nil()
    &&& w.heap.layout() == v.heap.layout()
    &&& w.heap.words() == v.heap.words()
    &&& forall|a: int| #[trigger] d.holds(a) ==> same_there(v.heap, w.heap, a)
}

proof fn lemma_same_index(h: HeapView, r: HeapView, o: int, x: Value, i: int, n: int)
    requires
        same_there(h, r, o),
        0 <= i,
        n <= h.nslots(o),
    ensures
        r.slot_index(o, x, i, n) == h.slot_index(o, x, i, n),
    decreases n - i,
{
    if i < n {
        assert(r.slot(o, i) == h.slot(o, i));
        lemma_same_index(h, r, o, x, i + 1, n);
    }
}

proof fn lemma_index_range(h: HeapView, o: int, x: Value, i: int, n: int)
    requires
        0 <= i <= n,
    ensures
        i <= h.slot_index(o, x, i, n) <= n,
    decreases n - i,
{
    if i < n {
        lemma_index_range(h, o, x, i + 1, n);
    }
}

/// A dictionary answers the same in both machines.
proof fn lemma_same_find(v: VmView, w: VmView, d: Searched, mdict: Value, selector: Value)
    requires
        covers(v, d),
        same_search(v, w, d),
        points_in(v.heap, mdict, d.dicts),
    ensures
        w.heap.mdict_find(mdict, selector) == v.heap.mdict_find(mdict, selector),
{
    let h = v.heap;
    let r = w.heap;
    let a = mdict.addr();
    if h.plausible(a) {
        assert(d.dicts.contains(a));
        assert(d.holds(a));
        assert(same_there(h, r, a));
        if h.shaped(a, MDICT_NUM_VM_SLOTS as int) {
            let keys = h.slot(a, MDICT_KEYS as int).addr();
            let vals = h.slot(a, MDICT_VALUES as int).addr();
            assert(r.slot(a, MDICT_KEYS as int) == h.slot(a, MDICT_KEYS as int));
            assert(r.slot(a, MDICT_VALUES as int) == h.slot(a, MDICT_VALUES as int));
            if h.plausible(keys) {
                assert(d.holds(keys));
                assert(same_there(h, r, keys));
                let n = h.nslots(keys) as int;
                lemma_same_index(h, r, keys, selector, 0, n);
                lemma_index_range(h, keys, selector, 0, n);
                if h.plausible(vals) {
                    assert(d.holds(vals));
                    assert(same_there(h, r, vals));
                }
            }
        }
    }
}

proof fn lemma_same_chain(
    v: VmView,
    w: VmView,
    d: Searched,
    cls: Value,
    selector: Value,
    fuel: nat,
)
    requires
        covers(v, d),
        same_search(v, w, d),
        points_in(v.heap, cls, d.classes),
    ensures
        w.lookup_chain(cls, selector, fuel) == v.lookup_chain(cls, selector, fuel),
    decreases fuel,
{
    let c = cls.addr();
    if fuel > 0 && v.heap.plausible(c) {
        assert(d.classes.contains(c));
        assert(d.holds(c));
        assert(same_there(v.heap, w.heap, c));
        if v.heap.shaped(c, BEHAVIOR_METHOD_DICTIONARY + 1) {
            let s = v.heap.slot(c, BEHAVIOR_SUPERCLASS as int);
            let md = v.heap.slot(c, BEHAVIOR_METHOD_DICTIONARY as int);
            assert(w.heap.slot(c, BEHAVIOR_SUPERCLASS as int) == s);
            assert(w.heap.slot(c, BEHAVIOR_METHOD_DICTIONARY as int) == md);
            lemma_same_find(v, w, d, md, selector);
            lemma_same_chain(v, w, d, s, selector, (fuel - 1) as nat);
        }
    }
}

/// The method that a search finds for a send: in the receiver's class, or
/// above the class that a super send names.
pub open spec fn found_for(v: VmView, class: u32, selector: Value, above: Option<Value>) -> Option<
    Value,
> {
    match above {
        Some(c) => v.lookup_above(c, selector),
        None => v.lookup(class, selector).0,
    }
}

/// A search finds the same in both machines.
proof fn lemma_same_found(
    v: VmView,
    w: VmView,
    d: Searched,
    class: u32,
    selector: Value,
    above: Option<Value>,
)
    requires
        covers(v, d),
        same_search(v, w, d),
        above matches Some(c) ==> points_in(v.heap, c, d.classes),
    ensures
        found_for(w, class, selector, above) == found_for(v, class, selector, above),
{
    let fuel = v.heap.words();
    match above {
        None => {
            if class < v.class_table.len() {
                lemma_same_chain(v, w, d, v.class_table[class as int], selector, fuel);
            }
        },
        Some(k) => {
            let c = k.addr();
            let h = v.heap;
            if h.plausible(c) {
                assert(d.holds(c));
                assert(same_there(h, w.heap, c));
                if h.shaped(c, BEHAVIOR_SUPERCLASS + 1) {
                    let sup = h.slot(c, BEHAVIOR_SUPERCLASS as int);
                    assert(w.heap.slot(c, BEHAVIOR_SUPERCLASS as int) == sup);
                    if h.plausible(sup.addr()) {
                        assert(d.holds(sup.addr()));
                        assert(same_there(h, w.heap, sup.addr()));
                        if h.shaped(sup.addr(), BEHAVIOR_CLASS_INDEX + 1) {
                            let i = BEHAVIOR_CLASS_INDEX as int;
                            assert(w.heap.slot(sup.addr(), i) == h.slot(sup.addr(), i));
                            let idx = h.slot(sup.addr(), i).int_value() as u32;
                            if idx < v.class_table.len() {
                                lemma_same_chain(
                                    v,
                                    w,
                                    d,
                                    v.class_table[idx as int],
                                    selector,
                                    fuel,
                                );
                            }
                        }
                    }
                }
            }
        },
    }
}

/// The class that a super send of a site searches above.
pub open spec fn static_class(h: HeapView, sites: int, base: int, sup: bool) -> Option<Value> {
    if sup {
        Some(h.slot(sites, base + SITE_STATIC_CLASS))
    } else {
        None
    }
}

/// A send site is empty, or remembers the method that a search finds for its
/// selector and the class it remembers. `sup` tells a site of super sends.
pub open spec fn site_agrees(v: VmView, sites: int, base: int, sup: bool) -> bool {
    let c = v.heap.slot(sites, base + SITE_CACHE_CLASS).int_value();
    0 < c <= u32::MAX ==> found_for(
        v,
        c as u32,
        v.heap.slot(sites, base + SITE_SELECTOR),
        static_class(v.heap, sites, base, sup),
    ) == Some(v.heap.slot(sites, base + SITE_CACHE_METHOD))
}

/// The words of a site in an array of send sites that matter to a search.
pub open spec fn site_slot(base: int, i: int) -> bool {
    i == base + SITE_SELECTOR || i == base + SITE_CACHE_CLASS || i == base + SITE_CACHE_METHOD || i
        == base + SITE_STATIC_CLASS
}

/// The class that a super send of a site searches above is one that a search
/// reads.
pub open spec fn covers_site(h: HeapView, d: Searched, sites: int, base: int, sup: bool) -> bool {
    sup ==> points_in(h, h.slot(sites, base + SITE_STATIC_CLASS), d.classes)
}

/// A site agrees as long as nobody changes it or what a search reads.
pub proof fn law_site_stays(
    v: VmView,
    w: VmView,
    d: Searched,
    sites: int,
    base: int,
    sup: bool,
)
    requires
        site_agrees(v, sites, base, sup),
        covers(v, d),
        same_search(v, w, d),
        covers_site(v.heap, d, sites, base, sup),
        forall|i: int| #[trigger] site_slot(base, i) ==> w.heap.slot(sites, i) == v.heap.slot(
            sites,
            i,
        ),
    ensures
        site_agrees(w, sites, base, sup),
{
    let c = v.heap.slot(sites, base + SITE_CACHE_CLASS).int_value();
    assert(site_slot(base, base + SITE_SELECTOR));
    assert(site_slot(base, base + SITE_CACHE_CLASS));
    assert(site_slot(base, base + SITE_CACHE_METHOD));
    assert(site_slot(base, base + SITE_STATIC_CLASS));
    lemma_same_found(
        v,
        w,
        d,
        c as u32,
        v.heap.slot(sites, base + SITE_SELECTOR),
        static_class(v.heap, sites, base, sup),
    );
}

/// A store into an object that no search reads changes no search.
#[verifier::rlimit(60)]
proof fn lemma_search_beside(
    v: VmView,
    b: Objects,
    d: Searched,
    o: int,
    i: int,
    x: Value,
)
    requires
        b.sound(),
        b.heap == v.heap,
        forall|a: int| #[trigger] d.holds(a) ==> b.lists(a),
        b.lists(o),
        !d.holds(o),
        0 <= i < v.heap.nslots(o),
    ensures
        same_search(v, v.on_heap(v.heap.set_slot(o, i, x)), d),
        same_search(v, v.on_heap(v.heap.store(o, i, x)), d),
{
    let h = v.heap;
    let h1 = h.set_slot(o, i, x);
    let h2 = h.store(o, i, x);
    lemma_lies(b, o);
    lemma_others(b, o, o + 8 + 8 * i, x.0);
    assert(h.wf()) by {
        reveal(Objects::sound);
    }
    crate::graph::lemma_reads_after_write(h, o + 8 + 8 * i, x.0);
    assert(h1.words() == h.words() && h2.words() == h.words() && h2.layout() == h.layout()) by {
        reveal(HeapView::write);
    }
    assert forall|a: int| #[trigger] d.holds(a) implies same_there(h, h1, a) && same_there(
        h,
        h2,
        a,
    ) by {
        assert(b.lists(a) && a != o);
        lemma_beside_store(b, o, i, x, a);
    }
}

/// A site that agrees still agrees after a store, with the write barrier or
/// without, into an object that no search reads and none of the site's own
/// words.
#[verifier::rlimit(60)]
pub proof fn law_site_stays_over_store(
    v: VmView,
    b: Objects,
    d: Searched,
    sites: int,
    base: int,
    sup: bool,
    o: Value,
    i: int,
    x: Value,
)
    requires
        b.sound(),
        b.heap == v.heap,
        covers(v, d),
        forall|a: int| #[trigger] d.holds(a) ==> b.lists(a),
        b.lists(sites),
        0 <= base,
        base + SITE_STRIDE <= v.heap.nslots(sites),
        covers_site(v.heap, d, sites, base, sup),
        site_agrees(v, sites, base, sup),
        v.heap.plausible(o.addr()) ==> b.lists(o.addr()),
        !d.holds(o.addr()),
        o.addr() != sites || !site_slot(base, i),
    ensures
        site_agrees(v.with_field(o, i, x), sites, base, sup),
        site_agrees(v.with_stored(o, i, x), sites, base, sup),
{
    reveal(VmView::with_field);
    reveal(VmView::with_stored);
    let a = o.addr();
    if 0 <= i && v.heap.shaped(a, i + 1) {
        lemma_search_beside(v, b, d, a, i, x);
        let h1 = v.heap.set_slot(a, i, x);
        let h2 = v.heap.store(a, i, x);
        lemma_lies(b, a);
        lemma_lies(b, sites);
        assert forall|j: int| #[trigger] site_slot(base, j) implies h1.slot(sites, j)
            == v.heap.slot(sites, j) && h2.slot(sites, j) == v.heap.slot(sites, j) by {
            lemma_slot_beside(b, a, i, x, sites, j);
        }
        law_site_stays(v, v.on_heap(h1), d, sites, base, sup);
        law_site_stays(v, v.on_heap(h2), d, sites, base, sup);
    }
}

/// A store changes one slot.
#[verifier::rlimit(60)]
proof fn lemma_slot_beside(b: Objects, a: int, i: int, x: Value, o: int, j: int)
    requires
        b.sound(),
        b.lists(a),
        b.lists(o),
        0 <= i < b.heap.nslots(a),
        0 <= j < b.heap.nslots(o),
        a != o || i != j,
    ensures
        b.heap.set_slot(a, i, x).slot(o, j) == b.heap.slot(o, j),
        b.heap.store(a, i, x).slot(o, j) == b.heap.slot(o, j),
{
    let h = b.heap;
    lemma_lies(b, a);
    lemma_lies(b, o);
    assert(h.wf()) by {
        reveal(Objects::sound);
    }
    let h1 = h.set_slot(a, i, x);
    crate::graph::lemma_reads_after_write(h, a + 8 + 8 * i, x.0);
    if a != o {
        lemma_others(b, a, a + 8 + 8 * i, x.0);
        lemma_beside_store(b, a, i, x, o);
    } else {
        let y = o + 8 + 8 * j;
        assert(h.plausible(y));
        let hd = h1.hdr(a);
        let w = hd.regc(hd.gc_field() | 2).0;
        crate::graph::lemma_reads_after_write(h1, a, w);
        let h2 = h1.write(a, w);
        let h3 = HeapView { ssb: h2.ssb.push(a as usize), ..h2 };
        assert(forall|z: int| #[trigger] h3.read(z) == h2.read(z)) by {
            reveal(HeapView::read);
        }
        assert(h1.read(y) == h.read(y));
        assert(h2.read(y) == h1.read(y));
    }
}

/// A send that misses leaves its site with its class and with the method that
/// a search finds for them.
#[verifier::rlimit(60)]
#[verifier::spinoff_prover]
pub proof fn law_filled_site_agrees(
    m: Machine,
    b: Objects,
    d: Searched,
    class: u32,
    base: int,
    sup: bool,
    method: Value,
)
    requires
        b.sound(),
        b.heap == m.vm.heap,
        m.vm.coherent(),
        covers(m.vm, d),
        forall|a: int| #[trigger] d.holds(a) ==> b.lists(a),
        b.lists(m.regs.sites.addr()),
        !d.holds(m.regs.sites.addr()),
        0 <= base,
        base + SITE_STRIDE <= m.vm.heap.nslots(m.regs.sites.addr()),
        covers_site(m.vm.heap, d, m.regs.sites.addr(), base, sup),
        0 < class <= crate::heap::MAX_CLASS_INDEX,
        m.searched(
            class,
            m.vm.heap.slot(m.regs.sites.addr(), base + SITE_SELECTOR),
            static_class(m.vm.heap, m.regs.sites.addr(), base, sup),
        ).1 == Some(method),
    ensures
        ({
            let m1 = m.searched(
                class,
                m.vm.heap.slot(m.regs.sites.addr(), base + SITE_SELECTOR),
                static_class(m.vm.heap, m.regs.sites.addr(), base, sup),
            ).0;
            let w = m1.site_filled(Some(base), class, method).vm;
            let s = m.regs.sites.addr();
            &&& w.heap.slot(s, base + SITE_CACHE_CLASS) == crate::value::tag(class as i64)
            &&& w.heap.slot(s, base + SITE_CACHE_METHOD) == method
            &&& site_agrees(w, s, base, sup)
        }),
{
    let s = m.regs.sites.addr();
    let h = m.vm.heap;
    let selector = h.slot(s, base + SITE_SELECTOR);
    let above = static_class(h, s, base, sup);
    let m1 = m.searched(class, selector, above).0;
    assert(m1.regs == m.regs && m1.vm.heap == h && m1.vm.class_table == m.vm.class_table
        && m1.vm.specials == m.vm.specials) by {
        reveal(Machine::searched);
        reveal(VmView::cached_lookup);
    }
    assert(found_for(m.vm, class, selector, above) == Some(method)) by {
        reveal(Machine::searched);
        if above is None {
            crate::laws::law_cache_agrees(m.vm, class, selector);
        }
    }
    lemma_lies(b, s);
    reveal(VmView::with_field);
    reveal(VmView::with_stored);
    let i = base + SITE_CACHE_CLASS;
    let j = base + SITE_CACHE_METHOD;
    let x = crate::value::tag(class as i64);
    crate::value::lemma_tag_bits(class as i64);
    let h1 = h.set_slot(s, i, x);
    let v1 = m1.vm.on_heap(h1);
    lemma_search_beside(m1.vm, b, d, s, i, x);
    assert(h.wf()) by {
        reveal(Objects::sound);
    }
    crate::graph::lemma_reads_after_write(h, s + 8 + 8 * i, x.0);
    lemma_filled_second(m1.vm, b, d, s, i, x, j, method, base);
    let h2 = h1.store(s, j, method);
    let v2 = v1.on_heap(h2);
    let w = m1.site_filled(Some(base), class, method).vm;
    assert(m1.vm.with_field(m.regs.sites, i, x) == v1);
    assert(v1.with_stored(m.regs.sites, j, method) == v2);
    assert(w.heap == h2 && w.class_table == m.vm.class_table && w.specials == m.vm.specials) by {
        reveal(VmView::send_site_patched);
    }
    assert(same_search(m.vm, w, d)) by {
        assert forall|a: int| #[trigger] d.holds(a) implies same_there(h, w.heap, a) by {
            assert(same_there(h, h1, a));
            assert(same_there(h1, h2, a));
        }
    }
    lemma_same_found(m.vm, w, d, class, selector, above);
}

/// The second store into a site.
#[verifier::rlimit(60)]
#[verifier::spinoff_prover]
proof fn lemma_filled_second(
    v: VmView,
    b: Objects,
    d: Searched,
    s: int,
    i: int,
    x: Value,
    j: int,
    y: Value,
    base: int,
)
    requires
        b.sound(),
        b.heap == v.heap,
        forall|a: int| #[trigger] d.holds(a) ==> b.lists(a),
        b.lists(s),
        !d.holds(s),
        !x.tagged_ptr(),
        0 <= base,
        base + SITE_STRIDE <= v.heap.nslots(s),
        i == base + SITE_CACHE_CLASS,
        j == base + SITE_CACHE_METHOD,
    ensures
        ({
            let h1 = v.heap.set_slot(s, i, x);
            let h2 = h1.store(s, j, y);
            &&& h1.nslots(s) == v.heap.nslots(s)
            &&& h1.whole(s)
            &&& h2.slot(s, i) == x
            &&& h2.slot(s, j) == y
            &&& h2.slot(s, base + SITE_SELECTOR) == v.heap.slot(s, base + SITE_SELECTOR)
            &&& h2.slot(s, base + SITE_STATIC_CLASS) == v.heap.slot(s, base + SITE_STATIC_CLASS)
            &&& same_search(v.on_heap(h1), v.on_heap(h2), d)
        }),
{
    let h = v.heap;
    lemma_lies(b, s);
    assert(h.wf()) by {
        reveal(Objects::sound);
    }
    let h1 = h.set_slot(s, i, x);
    crate::graph::lemma_reads_after_write(h, s + 8 + 8 * i, x.0);
    let b1 = crate::soundness::with_heap(b, h1);
    if h.hdr(s).byte_format() {
        crate::soundness::law_bytes_keep_heap_sound(b, s, i, x.0);
    } else {
        crate::soundness::law_store_keeps_heap_sound(b, s, i, x);
    }
    assert(b1.lists(s));
    lemma_lies(b1, s);
    assert forall|a: int| #[trigger] d.holds(a) implies b1.lists(a) by {
        assert(b.lists(a));
    }
    lemma_search_beside(v.on_heap(h1), b1, d, s, j, y);
    lemma_slot_beside(b1, s, j, y, s, i);
    assert forall|n: int|
        (n == base + SITE_SELECTOR || n == base + SITE_STATIC_CLASS) implies #[trigger] h1.store(
        s,
        j,
        y,
    ).slot(s, n) == h.slot(s, n) by {
        lemma_slot_beside(b1, s, j, y, s, n);
        lemma_slot_beside(b, s, i, x, s, n);
    }
    crate::laws::law_barrier_remembers(h1, s, j, y);
}

/// Flushing the caches, which every installation of a method ends with,
/// leaves every registered send site in agreement with the search.
pub proof fn law_flushed_sites_agree(
    v: VmView,
    young: Seq<usize>,
    old: Seq<usize>,
    k: int,
    s: int,
    sup: bool,
)
    requires
        crate::queues::laid_out(v.heap, young, old),
        forall|k: int|
            0 <= k < v.sites.len() ==> present(young, old, (#[trigger] v.sites[k]).addr()),
        0 <= k < v.sites.len(),
        0 <= s < v.flushed().heap.nslots(v.sites[k].addr()) as int / 5,
    ensures
        site_agrees(v.flushed(), v.sites[k].addr(), s * SITE_STRIDE, sup),
{
    crate::installs::law_flush_empties_sites(v, young, old);
    let a = v.sites[k].addr();
    assert(sites_empty(v.flushed().heap, a, v.nil()));
    assert(crate::installs::site_empty(v.flushed().heap, a, s, v.nil()));
    crate::value::lemma_tag_bits(0);
}

/// The objects that a search reads hold references, and a class holds its
/// index as an integer.
pub open spec fn regular(h: HeapView, d: Searched) -> bool {
    &&& forall|a: int| #[trigger] d.holds(a) ==> h.whole(a) && !h.hdr(a).byte_format()
    &&& forall|c: int| #[trigger]
        d.classes.contains(c) && BEHAVIOR_CLASS_INDEX < h.nslots(c) ==> h.slot(
            c,
            BEHAVIOR_CLASS_INDEX as int,
        ).tagged_int()
}

/// A value that points into the heap points at a kept object afterwards, and
/// any other stays as it is.
proof fn lemma_follow(v: VmView, w: VmView, m: Map<int, int>, x: Value, y: Value)
    requires
        same_graph(v, w, m),
        follows(v.heap, m, x, y),
    ensures
        w.heap.plausible(y.addr()) == v.heap.plausible(x.addr()),
        v.heap.plausible(x.addr()) ==> m.dom().contains(x.addr()) && y.addr() == m[x.addr()]
            && carried(v.heap, x.addr(), w.heap, m[x.addr()], m),
        !v.heap.plausible(x.addr()) ==> y == x,
{
    lemma_untag_bits(x);
    lemma_untag_bits(y);
    assert(w.heap.plausible(y.addr()) == v.heap.plausible(y.addr()));
    if v.heap.plausible(x.addr()) {
        assert(x.tagged_ptr());
        assert(carried(v.heap, x.addr(), w.heap, m[x.addr()], m));
        assert(w.heap.whole(m[x.addr()]));
        assert(w.heap.plausible(m[x.addr()]));
    }
}

/// Different values stay different.
proof fn lemma_follow_two(
    v: VmView,
    w: VmView,
    m: Map<int, int>,
    x: Value,
    x1: Value,
    y: Value,
    y1: Value,
)
    requires
        same_graph(v, w, m),
        follows(v.heap, m, x, x1),
        follows(v.heap, m, y, y1),
    ensures
        x1 == y1 <==> x == y,
{
    lemma_follow(v, w, m, x, x1);
    lemma_follow(v, w, m, y, y1);
    if x1 == y1 && v.heap.plausible(x.addr()) {
        assert(m[x.addr()] == m[y.addr()]);
    }
}

proof fn lemma_follow_index(
    v: VmView,
    w: VmView,
    m: Map<int, int>,
    o: int,
    x: Value,
    x1: Value,
    i: int,
    n: int,
)
    requires
        same_graph(v, w, m),
        m.dom().contains(o),
        !v.heap.hdr(o).byte_format(),
        follows(v.heap, m, x, x1),
        0 <= i,
        n <= v.heap.nslots(o),
    ensures
        w.heap.slot_index(m[o], x1, i, n) == v.heap.slot_index(o, x, i, n),
    decreases n - i,
{
    if i < n {
        assert(carried(v.heap, o, w.heap, m[o], m));
        assert(follows(v.heap, m, v.heap.slot(o, i), w.heap.slot(m[o], i)));
        lemma_follow_two(v, w, m, v.heap.slot(o, i), w.heap.slot(m[o], i), x, x1);
        lemma_follow_index(v, w, m, o, x, x1, i + 1, n);
    }
}

/// What two searches found is the same method.
pub open spec fn found_follows(
    h: HeapView,
    m: Map<int, int>,
    x: Option<Value>,
    y: Option<Value>,
) -> bool {
    match x {
        Some(a) => y matches Some(b) && follows(h, m, a, b),
        None => y is None,
    }
}

#[verifier::rlimit(40)]
proof fn lemma_follow_find(
    v: VmView,
    w: VmView,
    m: Map<int, int>,
    d: Searched,
    x: Value,
    x1: Value,
    selector: Value,
    selector1: Value,
)
    requires
        same_graph(v, w, m),
        covers(v, d),
        regular(v.heap, d),
        points_in(v.heap, x, d.dicts),
        follows(v.heap, m, x, x1),
        follows(v.heap, m, selector, selector1),
    ensures
        found_follows(
            v.heap,
            m,
            v.heap.mdict_find(x, selector),
            w.heap.mdict_find(x1, selector1),
        ),
{
    let h = v.heap;
    let r = w.heap;
    let a = x.addr();
    lemma_follow(v, w, m, x, x1);
    if h.plausible(a) {
        assert(d.dicts.contains(a));
        assert(d.holds(a));
        if h.shaped(a, MDICT_NUM_VM_SLOTS as int) {
            let k = h.slot(a, MDICT_KEYS as int);
            let l = h.slot(a, MDICT_VALUES as int);
            let k1 = r.slot(m[a], MDICT_KEYS as int);
            let l1 = r.slot(m[a], MDICT_VALUES as int);
            assert(follows(h, m, k, k1));
            assert(follows(h, m, l, l1));
            lemma_follow(v, w, m, k, k1);
            lemma_follow(v, w, m, l, l1);
            if h.plausible(k.addr()) {
                assert(d.holds(k.addr()));
                let n = h.nslots(k.addr()) as int;
                lemma_follow_index(v, w, m, k.addr(), selector, selector1, 0, n);
                lemma_index_range(h, k.addr(), selector, 0, n);
                let i = h.slot_index(k.addr(), selector, 0, n);
                if h.plausible(l.addr()) {
                    assert(d.holds(l.addr()));
                    if i < h.nslots(l.addr()) {
                        assert(follows(h, m, h.slot(l.addr(), i), r.slot(m[l.addr()], i)));
                    }
                }
            }
        }
    }
}

#[verifier::rlimit(40)]
proof fn lemma_follow_chain(
    v: VmView,
    w: VmView,
    m: Map<int, int>,
    d: Searched,
    x: Value,
    x1: Value,
    selector: Value,
    selector1: Value,
    fuel: nat,
)
    requires
        same_graph(v, w, m),
        covers(v, d),
        regular(v.heap, d),
        follows(v.heap, m, v.nil(), w.nil()),
        points_in(v.heap, x, d.classes),
        follows(v.heap, m, x, x1),
        follows(v.heap, m, selector, selector1),
    ensures
        found_follows(
            v.heap,
            m,
            v.lookup_chain(x, selector, fuel).0,
            w.lookup_chain(x1, selector1, fuel).0,
        ),
    decreases fuel,
{
    let h = v.heap;
    let r = w.heap;
    let c = x.addr();
    lemma_follow(v, w, m, x, x1);
    lemma_follow_two(v, w, m, x, x1, v.nil(), w.nil());
    if fuel > 0 && x != v.nil() && h.plausible(c) {
        assert(d.classes.contains(c));
        assert(d.holds(c));
        if h.shaped(c, BEHAVIOR_METHOD_DICTIONARY + 1) {
            let s = h.slot(c, BEHAVIOR_SUPERCLASS as int);
            let s1 = r.slot(m[c], BEHAVIOR_SUPERCLASS as int);
            let t = h.slot(c, BEHAVIOR_METHOD_DICTIONARY as int);
            let t1 = r.slot(m[c], BEHAVIOR_METHOD_DICTIONARY as int);
            assert(follows(h, m, s, s1));
            assert(follows(h, m, t, t1));
            lemma_follow_two(v, w, m, t, t1, v.nil(), w.nil());
            lemma_follow_find(v, w, m, d, t, t1, selector, selector1);
            lemma_follow_chain(v, w, m, d, s, s1, selector, selector1, (fuel - 1) as nat);
        }
    }
}

/// What a machine and a collected one have in common as far as a search
/// reads them.
pub open spec fn search_kept(v: VmView, w: VmView, m: Map<int, int>) -> bool {
    &&& same_graph(v, w, m)
    &&& w.heap.words() == v.heap.words()
    &&& follows(v.heap, m, v.nil(), w.nil())
    &&& w.class_table.len() == v.class_table.len()
    &&& forall|k: int|
        0 <= k < v.class_table.len() ==> follows(
            v.heap,
            m,
            v.class_table[k],
            #[trigger] w.class_table[k],
        )
}

proof fn lemma_follow_lookup(
    v: VmView,
    w: VmView,
    m: Map<int, int>,
    d: Searched,
    class: u32,
    selector: Value,
    selector1: Value,
)
    requires
        search_kept(v, w, m),
        covers(v, d),
        regular(v.heap, d),
        follows(v.heap, m, selector, selector1),
    ensures
        found_follows(
            v.heap,
            m,
            v.lookup(class, selector).0,
            w.lookup(class, selector1).0,
        ),
{
    let k = class as int;
    if k < v.class_table.len() {
        assert(follows(v.heap, m, v.class_table[k], w.class_table[k]));
        lemma_follow_chain(
            v,
            w,
            m,
            d,
            v.class_table[k],
            w.class_table[k],
            selector,
            selector1,
            v.heap.words(),
        );
    }
}

#[verifier::rlimit(40)]
proof fn lemma_follow_above(
    v: VmView,
    w: VmView,
    m: Map<int, int>,
    d: Searched,
    x: Value,
    x1: Value,
    selector: Value,
    selector1: Value,
)
    requires
        search_kept(v, w, m),
        covers(v, d),
        regular(v.heap, d),
        points_in(v.heap, x, d.classes),
        follows(v.heap, m, x, x1),
        follows(v.heap, m, selector, selector1),
    ensures
        found_follows(
            v.heap,
            m,
            v.lookup_above(x, selector),
            w.lookup_above(x1, selector1),
        ),
{
    let h = v.heap;
    let r = w.heap;
    let c = x.addr();
    lemma_follow(v, w, m, x, x1);
    if h.plausible(c) {
        assert(d.classes.contains(c));
        assert(d.holds(c));
        if h.shaped(c, BEHAVIOR_SUPERCLASS + 1) {
            let s = h.slot(c, BEHAVIOR_SUPERCLASS as int);
            let s1 = r.slot(m[c], BEHAVIOR_SUPERCLASS as int);
            assert(follows(h, m, s, s1));
            lemma_follow(v, w, m, s, s1);
            lemma_follow_two(v, w, m, s, s1, v.nil(), w.nil());
            if h.plausible(s.addr()) {
                assert(d.classes.contains(s.addr()));
                assert(d.holds(s.addr()));
                if h.shaped(s.addr(), BEHAVIOR_CLASS_INDEX + 1) {
                    let n = h.slot(s.addr(), BEHAVIOR_CLASS_INDEX as int);
                    let n1 = r.slot(m[s.addr()], BEHAVIOR_CLASS_INDEX as int);
                    assert(follows(h, m, n, n1));
                    lemma_untag_bits(n);
                    assert(n1 == n);
                    lemma_follow_lookup(v, w, m, d, n.int_value() as u32, selector, selector1);
                }
            }
        }
    }
}

/// A site agrees where it was moved to.
#[verifier::rlimit(40)]
proof fn lemma_moved_site(
    v: VmView,
    w: VmView,
    m: Map<int, int>,
    d: Searched,
    sites: int,
    base: int,
    sup: bool,
)
    requires
        search_kept(v, w, m),
        covers(v, d),
        regular(v.heap, d),
        covers_site(v.heap, d, sites, base, sup),
        m.dom().contains(sites),
        !v.heap.hdr(sites).byte_format(),
        0 <= base,
        base + SITE_STRIDE <= v.heap.nslots(sites),
        v.heap.slot(sites, base + SITE_CACHE_CLASS).tagged_int(),
        site_agrees(v, sites, base, sup),
    ensures
        site_agrees(w, m[sites], base, sup),
{
    let h = v.heap;
    let r = w.heap;
    let n = m[sites];
    assert(carried(h, sites, r, n, m));
    let x = h.slot(sites, base + SITE_CACHE_CLASS);
    let selector = h.slot(sites, base + SITE_SELECTOR);
    let selector1 = r.slot(n, base + SITE_SELECTOR);
    let c = h.slot(sites, base + SITE_STATIC_CLASS);
    let c1 = r.slot(n, base + SITE_STATIC_CLASS);
    let y = h.slot(sites, base + SITE_CACHE_METHOD);
    let y1 = r.slot(n, base + SITE_CACHE_METHOD);
    assert(follows(h, m, x, r.slot(n, base + SITE_CACHE_CLASS)));
    assert(follows(h, m, selector, selector1));
    assert(follows(h, m, c, c1));
    assert(follows(h, m, y, y1));
    lemma_untag_bits(x);
    let class = x.int_value();
    if 0 < class <= u32::MAX {
        if sup {
            lemma_follow_above(v, w, m, d, c, c1, selector, selector1);
        } else {
            lemma_follow_lookup(v, w, m, d, class as u32, selector, selector1);
        }
    }
}

/// Specials and classes are among the references of a machine.
proof fn lemma_search_kept(v: VmView, w: VmView, m: Map<int, int>)
    requires
        same_graph(v, w, m),
        w.heap.words() == v.heap.words(),
        w.specials.len() == v.specials.len(),
        w.class_table.len() == v.class_table.len(),
        SPECIAL_NIL < v.specials.len(),
    ensures
        search_kept(v, w, m),
{
    assert(v.roots()[SPECIAL_NIL as int] == v.nil());
    assert(w.roots()[SPECIAL_NIL as int] == w.nil());
    assert forall|k: int| 0 <= k < v.class_table.len() implies follows(
        v.heap,
        m,
        v.class_table[k],
        #[trigger] w.class_table[k],
    ) by {
        let i = v.specials.len() + k;
        assert(v.roots()[i] == v.class_table[k]);
        assert(w.roots()[i] == w.class_table[k]);
        assert(follows(v.heap, m, v.roots()[i], w.roots()[i]));
    }
}

/// A site that agrees still agrees after a scavenge, where it was moved to.
pub proof fn law_site_stays_over_scavenge(
    v: VmView,
    young: Seq<usize>,
    old: Seq<usize>,
    live: Set<int>,
    d: Searched,
    sites: int,
    base: int,
    sup: bool,
)
    requires
        v.sound(young, old, live),
        SPECIAL_NIL < v.specials.len(),
        covers(v, d),
        regular(v.heap, d),
        covers_site(v.heap, d, sites, base, sup),
        !v.heap.hdr(sites).byte_format(),
        0 <= base,
        base + SITE_STRIDE <= v.heap.nslots(sites),
        v.heap.slot(sites, base + SITE_CACHE_CLASS).tagged_int(),
        site_agrees(v, sites, base, sup),
    ensures
        v.scavenged() matches Ok(w) ==> exists|
            m: Map<int, int>,
            young1: Seq<usize>,
            old1: Seq<usize>,
        |
            scavenge_keeps(v, old, w, m, young1, old1) && (m.dom().contains(sites) ==> site_agrees(
                w,
                m[sites],
                base,
                sup,
            )),
{
    law_scavenge_keeps_graph(v, young, old, live);
    if let Ok(w) = v.scavenged() {
        let (m, young1, old1) = choose|m: Map<int, int>, young1: Seq<usize>, old1: Seq<usize>|
            scavenge_keeps(v, old, w, m, young1, old1);
        lemma_search_kept(v, w, m);
        if m.dom().contains(sites) {
            lemma_moved_site(v, w, m, d, sites, base, sup);
        }
    }
}

/// A site that agrees still agrees after a compaction, where it was moved
/// to.
pub proof fn law_site_stays_over_compaction(
    v: VmView,
    young: Seq<usize>,
    old: Seq<usize>,
    live: Set<int>,
    d: Searched,
    sites: int,
    base: int,
    sup: bool,
)
    requires
        v.sound(young, old, live),
        SPECIAL_NIL < v.specials.len(),
        covers(v, d),
        regular(v.heap, d),
        covers_site(v.heap, d, sites, base, sup),
        !v.heap.hdr(sites).byte_format(),
        0 <= base,
        base + SITE_STRIDE <= v.heap.nslots(sites),
        v.heap.slot(sites, base + SITE_CACHE_CLASS).tagged_int(),
        site_agrees(v, sites, base, sup),
    ensures
        v.compacted() matches Ok(w) ==> exists|
            m: Map<int, int>,
            young1: Seq<usize>,
            old1: Seq<usize>,
            live1: Set<int>,
        |
            compaction_keeps(v, old, w, m, young1, old1, live1) && (m.dom().contains(sites)
                ==> site_agrees(w, m[sites], base, sup)),
{
    law_compaction_keeps_graph(v, young, old, live);
    if let Ok(w) = v.compacted() {
        let (m, young1, old1, live1) = choose|
            m: Map<int, int>,
            young1: Seq<usize>,
            old1: Seq<usize>,
            live1: Set<int>,
        | compaction_keeps(v, old, w, m, young1, old1, live1);
        lemma_search_kept(v, w, m);
        if m.dom().contains(sites) {
            lemma_moved_site(v, w, m, d, sites, base, sup);
        }
    }
}

} // verus!
