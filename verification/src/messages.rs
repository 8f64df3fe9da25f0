//! Messages: a send runs the method that the receiver's class has or
//! inherits, through the caches or not.

use crate::calls::{call_fields, law_call_enters_the_method, return_word, stack_here};
use crate::fields::{
    lemma_field_kept, lemma_field_set, lemma_same_but_more, lemma_same_but_on,
    lemma_same_but_self, same_but,
};
use crate::inheritance::{
    all_have_dictionaries, law_search_finds_nearest, law_super_search_finds_nearest,
    lemma_nearest_is_one, lineage, nearest_method,
};
use crate::inline_caches::site_agrees;
use crate::laws::law_cache_agrees;
use crate::machine::Machine;
use crate::queues::{laid_out, lemma_field, roomy};
use crate::treaty::{
    BEHAVIOR_CLASS_INDEX, BEHAVIOR_SUPERCLASS, FRAME_CALLER, FRAME_RECEIVER, FRAME_RETINFO,
    SITE_CACHE_CLASS, SITE_CACHE_METHOD, SITE_SELECTOR, SITE_STATIC_CLASS, SITE_STRIDE,
};
use crate::value::Value;
use crate::vm::VmView;
use vstd::prelude::*;

verus! {

/// The inline cache of a send site.
pub open spec fn site_fields(sites: Value, site: Option<int>) -> Set<(Value, int)> {
    match site {
        None => Set::empty(),
        Some(base) => set![(sites, base + SITE_CACHE_CLASS), (sites, base + SITE_CACHE_METHOD)],
    }
}

/// A send whose selector is that of its site, at which the site agrees with
/// the search, from a machine whose lookup cache agrees with it.
pub open spec fn sends_here(
    m: Machine,
    young: Seq<usize>,
    old: Seq<usize>,
    selector: Value,
    site: Option<int>,
    sup: bool,
) -> bool {
    &&& laid_out(m.vm.heap, young, old)
    &&& m.vm.coherent()
    &&& site matches Some(base) ==> {
        &&& 0 <= base
        &&& roomy(m.vm.heap, young, old, m.regs.sites.addr(), base + SITE_STRIDE - 1)
        &&& m.vm.field(m.regs.sites, base + SITE_SELECTOR) == selector
        &&& site_agrees(m.vm, m.regs.sites.addr(), base, sup)
    }
}

/// The machine after the resolution of a send: only the inline cache of its
/// site may have changed.
pub open spec fn resolved_from(
    m: Machine,
    x: Machine,
    young: Seq<usize>,
    old: Seq<usize>,
    site: Option<int>,
) -> bool {
    &&& x.regs == m.regs
    &&& x.vm.active == m.vm.active
    &&& x.vm.epoch == m.vm.epoch
    &&& x.vm.class_table == m.vm.class_table
    &&& same_but(m.vm, x.vm, young, old, site_fields(m.regs.sites, site))
}

/// The counters say nothing of the objects.
proof fn lemma_counted_same(
    m: Machine,
    x: Machine,
    young: Seq<usize>,
    old: Seq<usize>,
    site: Option<int>,
)
    requires
        laid_out(m.vm.heap, young, old),
        x.regs == m.regs,
        x.vm.heap == m.vm.heap,
        x.vm.specials == m.vm.specials,
        x.vm.active == m.vm.active,
        x.vm.epoch == m.vm.epoch,
        x.vm.class_table == m.vm.class_table,
    ensures
        resolved_from(m, x, young, old, site),
{
    lemma_same_but_self(m.vm, x.vm, young, old);
    lemma_same_but_more(
        m.vm,
        x.vm,
        young,
        old,
        Set::empty(),
        site_fields(m.regs.sites, site),
    );
}

/// Filling the cache of a site changes that alone.
proof fn lemma_filled(
    m: Machine,
    x: Machine,
    young: Seq<usize>,
    old: Seq<usize>,
    site: Option<int>,
    class: u32,
    method: Value,
)
    requires
        resolved_from(m, x, young, old, site),
        site matches Some(base) ==> 0 <= base && roomy(
            m.vm.heap,
            young,
            old,
            m.regs.sites.addr(),
            base + SITE_STRIDE - 1,
        ),
    ensures
        resolved_from(m, x.site_filled(site, class, method), young, old, site),
{
    if let Some(base) = site {
        let o = m.regs.sites;
        let i = base + SITE_CACHE_CLASS;
        let j = base + SITE_CACHE_METHOD;
        let t = crate::value::tag(class as i64);
        let s = site_fields(o, site);
        assert(roomy(m.vm.heap, young, old, o.addr(), i));
        assert(roomy(m.vm.heap, young, old, o.addr(), j));
        assert(roomy(x.vm.heap, young, old, o.addr(), i));
        lemma_field_set(x.vm, young, old, o, i, t);
        let a = x.vm.with_field(o, i, t);
        assert(roomy(x.vm.heap, young, old, o.addr(), j));
        assert(roomy(a.heap, young, old, o.addr(), j));
        lemma_field_kept(a, young, old, o, j, method);
        let b = a.with_stored(o, j, method);
        let n = (base / (SITE_STRIDE as int)) as u8;
        crate::steps::lemma_patched_roots(b, m.regs.method, n, class, method);
        let c = b.send_site_patched(m.regs.method, n, class, method);
        lemma_same_but_on(m.vm, x.vm, a, young, old, s, set![(o, i)]);
        lemma_same_but_on(m.vm, a, b, young, old, s.union(set![(o, i)]), set![(o, j)]);
        lemma_same_but_self(b, c, young, old);
        lemma_same_but_on(
            m.vm,
            b,
            c,
            young,
            old,
            s.union(set![(o, i)]).union(set![(o, j)]),
            Set::empty(),
        );
        assert(s.union(set![(o, i)]).union(set![(o, j)]).union(Set::empty()) =~= s);
        assert(c.class_table == m.vm.class_table) by {
            reveal(VmView::send_site_patched);
        }
    }
}

/// A search through the lookup cache leaves the objects as they are.
proof fn lemma_searched_same(
    m: Machine,
    young: Seq<usize>,
    old: Seq<usize>,
    site: Option<int>,
    class: u32,
    selector: Value,
    above: Option<Value>,
)
    requires
        laid_out(m.vm.heap, young, old),
    ensures
        resolved_from(
            m,
            m.send_counted().miss_counted(site).searched(class, selector, above).0,
            young,
            old,
            site,
        ),
{
    reveal(Machine::searched);
    reveal(VmView::cached_lookup);
    lemma_counted_same(
        m,
        m.send_counted().miss_counted(site).searched(class, selector, above).0,
        young,
        old,
        site,
    );
}

/// A send runs the method of the nearest class, from the receiver's class up
/// the whole superclass chain, that has one for the selector, whether a cache
/// knows it or not; only the inline cache of its site may change before it
/// runs. Where no class of the chain has one the message is not understood.
#[verifier::rlimit(60)]
#[verifier::spinoff_prover]
pub proof fn law_send_runs_the_nearest_method(
    m: Machine,
    young: Seq<usize>,
    old: Seq<usize>,
    dest: u8,
    r: u8,
    selector: Value,
    argc: int,
    site: Option<int>,
    chain: Seq<Value>,
    found: Option<Value>,
) -> (x: Machine)
    requires
        sends_here(m, young, old, selector, site, false),
        ({
            let class = m.vm.class_no(m.get(r as int));
            &&& 0 < class < m.vm.class_table.len()
            &&& lineage(m.vm, m.vm.class_table[class as int], chain)
        }),
        all_have_dictionaries(m.vm, chain),
        nearest_method(m.vm, chain, selector, found),
    ensures
        resolved_from(m, x, young, old, site),
        found matches Some(method) ==> m.sent(dest, r, selector, argc, site, None) == x.activated(
            method,
            r,
            dest,
            argc,
        ),
        found is None ==> m.sent(dest, r, selector, argc, site, None) == x.misunderstood(
            dest,
            r,
            selector,
            argc,
        ),
{
    reveal(Machine::sent);
    let class = m.vm.class_no(m.get(r as int));
    law_search_finds_nearest(m.vm, class, selector, chain);
    lemma_nearest_is_one(m.vm, chain, selector, m.vm.lookup(class, selector).0, found);
    let m0 = m.send_counted();
    let hit = site matches Some(base) && m0.vm.int_field(
        m0.regs.sites,
        base + SITE_CACHE_CLASS,
    ) == class;
    assert(forall|a: Value, j: int| #[trigger] m0.vm.field(a, j) == m.vm.field(a, j)) by {
        reveal(VmView::field);
    }
    if hit {
        let base = site->0;
        let o = m.regs.sites;
        assert(roomy(m.vm.heap, young, old, o.addr(), base + SITE_CACHE_CLASS));
        assert(roomy(m.vm.heap, young, old, o.addr(), base + SITE_CACHE_METHOD));
        assert(roomy(m.vm.heap, young, old, o.addr(), base + SITE_SELECTOR));
        lemma_field(m.vm, young, old, o, base + SITE_CACHE_CLASS);
        lemma_field(m.vm, young, old, o, base + SITE_CACHE_METHOD);
        lemma_field(m.vm, young, old, o, base + SITE_SELECTOR);
        lemma_counted_same(m, m0, young, old, site);
        m0
    } else {
        let m1 = m0.miss_counted(site);
        let (m2, got) = m1.searched(class, selector, None);
        assert(got == found) by {
            reveal(Machine::searched);
            lemma_same_coherent(m.vm, m1.vm);
            law_cache_agrees(m1.vm, class, selector);
            lemma_lookup_same(m.vm, m1.vm, class, selector);
        }
        lemma_searched_same(m, young, old, site, class, selector, None);
        match found {
            None => m2,
            Some(method) => {
                lemma_filled(m, m2, young, old, site, class, method);
                m2.site_filled(site, class, method)
            },
        }
    }
}

/// A search reads the heap, the class table and nil alone.
proof fn lemma_lookup_same(v: VmView, w: VmView, class: u32, selector: Value)
    requires
        w.heap == v.heap,
        w.class_table == v.class_table,
        w.specials == v.specials,
    ensures
        w.lookup(class, selector) == v.lookup(class, selector),
{
    if class < v.class_table.len() {
        let c = v.class_table[class as int];
        assert forall|n: nat|
            w.lookup_chain(c, selector, n) == #[trigger] v.lookup_chain(c, selector, n) by {
            lemma_chain_one(v, w, c, selector, n);
        }
    }
}

proof fn lemma_chain_one(v: VmView, w: VmView, cls: Value, selector: Value, fuel: nat)
    requires
        w.heap == v.heap,
        w.specials == v.specials,
    ensures
        w.lookup_chain(cls, selector, fuel) == v.lookup_chain(cls, selector, fuel),
    decreases fuel,
{
    if fuel > 0 {
        lemma_chain_one(
            v,
            w,
            v.heap.slot(cls.addr(), BEHAVIOR_SUPERCLASS as int),
            selector,
            (fuel - 1) as nat,
        );
    }
}

proof fn lemma_same_coherent(v: VmView, w: VmView)
    requires
        v.coherent(),
        w.heap == v.heap,
        w.class_table == v.class_table,
        w.specials == v.specials,
        w.cache == v.cache,
    ensures
        w.coherent(),
{
    assert forall|i: int|
        0 <= i < w.cache.len() && (#[trigger] w.cache[i]).class_index != 0 implies w.lookup(
        w.cache[i].class_index,
        w.cache[i].selector,
    ).0 == Some(w.cache[i].method) by {
        lemma_lookup_same(v, w, w.cache[i].class_index, w.cache[i].selector);
    }
}

/// A super send runs the method of the nearest class above the class that it
/// names.
#[verifier::rlimit(60)]
#[verifier::spinoff_prover]
pub proof fn law_super_send_runs_the_nearest_method(
    m: Machine,
    young: Seq<usize>,
    old: Seq<usize>,
    dest: u8,
    r: u8,
    selector: Value,
    argc: int,
    base: int,
    chain: Seq<Value>,
    found: Option<Value>,
) -> (x: Machine)
    requires
        sends_here(m, young, old, selector, Some(base), true),
        m.vm.class_no(m.get(r as int)) > 0,
        lineage(m.vm, m.vm.field(m.regs.sites, base + SITE_STATIC_CLASS), chain),
        all_have_dictionaries(m.vm, chain),
        chain.len() > 1 ==> {
            let s = m.vm.heap.slot(chain[1].addr(), BEHAVIOR_CLASS_INDEX as int).int_value();
            &&& m.vm.heap.shaped(chain[1].addr(), BEHAVIOR_CLASS_INDEX + 1)
            &&& 0 <= s < m.vm.class_table.len() <= u32::MAX
            &&& m.vm.class_table[s as int] == chain[1]
        },
        chain.len() > 0,
        nearest_method(m.vm, chain.skip(1), selector, found),
    ensures
        resolved_from(m, x, young, old, Some(base)),
        ({
            let c = m.vm.field(m.regs.sites, base + SITE_STATIC_CLASS);
            let res = m.sent(dest, r, selector, argc, Some(base), Some(c));
            &&& found matches Some(method) ==> res == x.activated(method, r, dest, argc)
            &&& found is None ==> res == x.misunderstood(dest, r, selector, argc)
        }),
{
    reveal(Machine::sent);
    let class = m.vm.class_no(m.get(r as int));
    let o = m.regs.sites;
    let c = m.vm.field(o, base + SITE_STATIC_CLASS);
    let site = Some(base);
    law_super_search_finds_nearest(m.vm, c, selector, chain);
    lemma_nearest_is_one(m.vm, chain.skip(1), selector, m.vm.lookup_above(c, selector), found);
    let m0 = m.send_counted();
    assert(forall|a: Value, j: int| #[trigger] m0.vm.field(a, j) == m.vm.field(a, j)) by {
        reveal(VmView::field);
    }
    assert(roomy(m.vm.heap, young, old, o.addr(), base + SITE_CACHE_CLASS));
    assert(roomy(m.vm.heap, young, old, o.addr(), base + SITE_CACHE_METHOD));
    assert(roomy(m.vm.heap, young, old, o.addr(), base + SITE_SELECTOR));
    assert(roomy(m.vm.heap, young, old, o.addr(), base + SITE_STATIC_CLASS));
    lemma_field(m.vm, young, old, o, base + SITE_CACHE_CLASS);
    lemma_field(m.vm, young, old, o, base + SITE_CACHE_METHOD);
    lemma_field(m.vm, young, old, o, base + SITE_SELECTOR);
    lemma_field(m.vm, young, old, o, base + SITE_STATIC_CLASS);
    if m0.vm.int_field(o, base + SITE_CACHE_CLASS) == class {
        lemma_counted_same(m, m0, young, old, site);
        m0
    } else {
        let m1 = m0.miss_counted(site);
        let (m2, got) = m1.searched(class, selector, Some(c));
        assert(got == found) by {
            reveal(Machine::searched);
            lemma_above_same(m.vm, m1.vm, c, selector);
        }
        lemma_searched_same(m, young, old, site, class, selector, Some(c));
        match found {
            None => m2,
            Some(method) => {
                lemma_filled(m, m2, young, old, site, class, method);
                m2.site_filled(site, class, method)
            },
        }
    }
}

proof fn lemma_above_same(v: VmView, w: VmView, c: Value, selector: Value)
    requires
        w.heap == v.heap,
        w.class_table == v.class_table,
        w.specials == v.specials,
    ensures
        w.lookup_above(c, selector) == v.lookup_above(c, selector),
{
    let sup = v.heap.slot(c.addr(), BEHAVIOR_SUPERCLASS as int);
    let idx = v.heap.slot(sup.addr(), BEHAVIOR_CLASS_INDEX as int).int_value() as u32;
    lemma_lookup_same(v, w, idx, selector);
}

/// A method without a primitive that is activated is entered with its
/// receiver and arguments, where the stack has room for its frame and no
/// compiler counts its calls.
#[verifier::rlimit(40)]
pub proof fn law_activation_enters_the_method(
    m: Machine,
    young: Seq<usize>,
    old: Seq<usize>,
    method: Value,
    r: u8,
    dest: u8,
    argc: int,
)
    requires
        0 <= argc < crate::vm::mh_frame_slots(m.vm.method_bits(method)),
        FRAME_RECEIVER <= r,
        crate::vm::mh_primitive(m.vm.method_bits(method)) is None,
        m.vm.jit is None,
        stack_here(
            m,
            young,
            old,
            m.regs.frame + r + FRAME_RECEIVER + crate::vm::mh_frame_slots(
                m.vm.method_bits(method),
            ),
        ),
    ensures
        m.activated(method, r, dest, argc) matches Ok(w) && {
            let st = m.regs.stack;
            let off = m.regs.frame + r;
            &&& w.regs.stack == st
            &&& w.regs.frame == off
            &&& w.regs.method == method
            &&& w.regs.pc == 0
            &&& forall|k: int| 0 <= k <= argc ==> #[trigger] w.get(k) == m.get(r + k)
            &&& w.vm.field(st, off + FRAME_CALLER) == crate::value::tag(m.regs.frame as i64)
            &&& w.vm.field(st, off + FRAME_RETINFO) == return_word(dest, m.regs.pc)
            &&& same_but(
                m.vm,
                w.vm,
                young,
                old,
                call_fields(
                    m,
                    off,
                    off + FRAME_RECEIVER + crate::vm::mh_frame_slots(m.vm.method_bits(method)),
                ),
            )
        },
{
    reveal(Machine::activated);
    reveal(VmView::invocation_counted);
    reveal(VmView::slots);
    crate::calls::lemma_frame_words(0, 0, 0, 0);
    crate::queues::lemma_apart_all(
        m.vm.heap,
        young,
        old,
        m.regs.stack.addr(),
        m.regs.stack.addr(),
    );
    law_call_enters_the_method(m, young, old, method, r, dest, argc, 0);
}

} // verus!
