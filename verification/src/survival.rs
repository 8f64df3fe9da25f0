//! A young collection keeps the object graph.

use crate::gc::{in_order, with_element, Survivors};
use crate::graph::{
    advanced, alike, fin, is_image, kept, lemma_alike_size, lemma_drain_keeps,
    lemma_forward_all_keeps, lemma_forward_keeps, lemma_image_inj, lemma_image_stands,
    lemma_low_bit, lemma_old_no_copy, lemma_reads_after_write, lemma_scan_all_keeps,
    lemma_scan_keeps, lemma_slot_known, lemma_stand_apart, lemma_store_keeps, lemma_tiles_kept,
    lemma_within, lemma_young_is_young, lemma_young_listed, listed, headed, same_fields, same_size,
    slot_ok, tiles, Copies, Objects,
};
use crate::heap::{Header, HeapView};
use crate::remembered::{flagged, lemma_remembers, remembers};
use crate::scavenge::ScavView;
use crate::value::Value;
use crate::vm::VmView;
use crate::treaty::{
    PROCESS_STACK, SPECIAL_NIL,
};
use vstd::prelude::*;

verus! {

// ---------------------------------------------------------------------------
// Sound machines
// ---------------------------------------------------------------------------
impl VmView {
    /// The stack of the running process.
    pub open spec fn running_stack(self) -> Option<int> {
        let st = self.heap.slot(self.active.addr(), PROCESS_STACK as int);
        if !self.active.tagged_ptr() || self.active == self.nil() || !st.tagged_ptr() || st
            == self.nil() {
            None
        } else {
            Some(st.addr())
        }
    }

    /// The heap and its objects.
    pub open spec fn objects(self, young: Seq<usize>, old: Seq<usize>, live: Set<int>) -> Objects {
        Objects { heap: self.heap, young, old, live }
    }

    /// The heap is sound, every reference of the machine leads to an object,
    /// the active process is not a byte object, and every old object that
    /// points young is in the remembered set or is the running stack.
    #[verifier::opaque]
    pub open spec fn sound(self, young: Seq<usize>, old: Seq<usize>, live: Set<int>) -> bool {
        let b = self.objects(young, old, live);
        let h = self.heap;
        &&& b.sound()
        &&& self.specials.len() > SPECIAL_NIL
        &&& forall|i: int| 0 <= i < self.roots().len() ==> b.known(#[trigger] self.roots()[i])
        &&& self.active.tagged_ptr() && h.plausible(self.active.addr()) ==> !h.hdr(
            self.active.addr(),
        ).byte_format()
        &&& forall|k: int| 0 <= k < h.ssb.len() ==> listed(old, (#[trigger] h.ssb[k]) as int)
        &&& forall|o: int, i: int|
            listed(old, o) && !h.hdr(o).byte_format() && 0 <= i < h.nslots(o) && (
            #[trigger] h.slot(o, i)).tagged_ptr() && h.young(h.slot(o, i).addr()) ==> listed(
                h.ssb,
                o,
            ) || self.running_stack() == Some(o)
    }
}

impl VmView {
    /// The active process, if there is one, has a place for its stack, and
    /// its stack, if it has one, lies in the heap.
    pub open spec fn runs(self) -> bool {
        let p = self.active;
        let st = self.heap.slot(p.addr(), PROCESS_STACK as int);
        p.tagged_ptr() && p != self.nil() ==> {
            &&& self.heap.shaped(p.addr(), PROCESS_STACK + 1)
            &&& st.tagged_ptr() && st != self.nil() ==> self.heap.plausible(st.addr())
        }
    }
}

/// Where a value leads after a collection that moved objects as `m` says.
pub open spec fn follows(h: HeapView, m: Map<int, int>, v: Value, w: Value) -> bool {
    if v.tagged_ptr() && h.plausible(v.addr()) {
        m.dom().contains(v.addr()) && w == Value(m[v.addr()] as u64)
    } else {
        w == v
    }
}

/// The object at `a` in `h` is at `n` in `h1`: the same class, identity
/// hash, format and size, the same bytes, and slots that lead where they
/// led.
pub open spec fn carried(h: HeapView, a: int, h1: HeapView, n: int, m: Map<int, int>) -> bool {
    &&& h1.whole(n)
    &&& same_fields(h.hdr(a), h1.hdr(n))
    &&& h1.nslots(n) == h.nslots(a)
    &&& forall|i: int|
        0 <= i < h.nslots(a) ==> if h.hdr(a).byte_format() {
            #[trigger] h1.slot(n, i) == h.slot(a, i)
        } else {
            follows(h, m, h.slot(a, i), h1.slot(n, i))
        }
}

/// Two machines hold the same object graph: every reference of the first
/// leads to the same object in the second, objects reached keep their
/// contents, and different objects stay different.
pub open spec fn same_graph(v: VmView, w: VmView, m: Map<int, int>) -> bool {
    &&& v.heap.wf() && w.heap.wf()
    &&& forall|x: int| #[trigger] w.heap.plausible(x) == v.heap.plausible(x)
    &&& w.roots().len() == v.roots().len()
    &&& forall|i: int|
        0 <= i < v.roots().len() ==> follows(v.heap, m, v.roots()[i], #[trigger] w.roots()[i])
    &&& forall|a: int| #[trigger] m.dom().contains(a) ==> carried(v.heap, a, w.heap, m[a], m)
    &&& forall|a: int, b: int|
        m.dom().contains(a) && m.dom().contains(b) && #[trigger] m[a] == #[trigger] m[b] ==> a == b
}

/// Objects that stay where they are.
pub open spec fn unmoved(objs: Seq<usize>, m: Map<int, int>) -> bool {
    forall|i: int|
        0 <= i < objs.len() ==> m.dom().contains(#[trigger] objs[i] as int) && m[objs[i] as int]
            == objs[i]
}

/// Every object of a list was somewhere before.
pub open spec fn came_from(m: Map<int, int>, objs: Seq<usize>) -> bool {
    forall|n: int| #[trigger]
        listed(objs, n) ==> exists|a: int| #[trigger] m.dom().contains(a) && m[a] == n
}

/// Every object that was kept is in one of two lists.
pub open spec fn lands_in(m: Map<int, int>, young: Seq<usize>, old: Seq<usize>) -> bool {
    forall|a: int| #[trigger] m.dom().contains(a) ==> listed(young, m[a]) || listed(old, m[a])
}

/// A value that points into the heap points into a set.
pub open spec fn leads_in(h: HeapView, x: Value, s: Set<int>) -> bool {
    x.tagged_ptr() && h.plausible(x.addr()) ==> s.contains(x.addr())
}

/// A set holds all that the machine's references reach: where they lead, and
/// where the slots of what it holds lead.
pub open spec fn holds_reached(v: VmView, s: Set<int>) -> bool {
    &&& forall|i: int| 0 <= i < v.roots().len() ==> leads_in(v.heap, #[trigger] v.roots()[i], s)
    &&& forall|a: int, i: int|
        s.contains(a) && !v.heap.hdr(a).byte_format() && 0 <= i < v.heap.nslots(a) ==> leads_in(
            v.heap,
            #[trigger] v.heap.slot(a, i),
            s,
        )
}

/// A set holds every object of a list.
pub open spec fn holds_all(objs: Seq<usize>, s: Set<int>) -> bool {
    forall|o: int| #[trigger] listed(objs, o) ==> s.contains(o)
}

/// Only what the machine's references reach is kept.
pub open spec fn only_reached(v: VmView, m: Map<int, int>) -> bool {
    forall|s: Set<int>| #[trigger] holds_reached(v, s) ==> m.dom().subset_of(s)
}

/// Only what the machine's references and the old objects reach is kept.
pub open spec fn only_reached_from(v: VmView, old: Seq<usize>, m: Map<int, int>) -> bool {
    forall|s: Set<int>| #[trigger] holds_reached(v, s) && holds_all(old, s) ==> m.dom().subset_of(s)
}

/// What a scavenge does, with where it moved objects and which objects there
/// are after it: the object graph is kept, no old object moves, the machine
/// is sound again, there are no other objects than those kept, of the young
/// objects only those are kept that the machine's references or the old
/// objects reach, and the remembered set holds just the old objects that
/// point young.
pub open spec fn scavenge_keeps(
    v: VmView,
    old: Seq<usize>,
    w: VmView,
    m: Map<int, int>,
    young1: Seq<usize>,
    old1: Seq<usize>,
) -> bool {
    &&& same_graph(v, w, m)
    &&& unmoved(old, m)
    &&& w.sound(young1, old1, Set::full())
    &&& old.is_prefix_of(old1)
    &&& came_from(m, young1)
    &&& came_from(m, old1)
    &&& lands_in(m, young1, old1)
    &&& only_reached_from(v, old, m)
    &&& flagged(v.heap, old) ==> remembers(w.heap, old1)
    &&& w.heap.old.base == v.heap.old.base && w.heap.old.limit() == v.heap.old.limit()
    &&& w.heap.words() == v.heap.words()
}

/// The references come back in the order they went in.
pub(crate) proof fn lemma_with_roots(v: VmView, r: Seq<Value>)
    requires
        r.len() == v.roots().len(),
    ensures
        v.with_roots(r).roots() == r,
        v.with_roots(r).heap == v.heap,
        v.with_roots(r).active == r[r.len() - 1],
        v.active == v.roots()[v.roots().len() - 1],
        v.specials.len() > SPECIAL_NIL ==> v.with_roots(r).nil() == r[SPECIAL_NIL as int]
            && v.nil() == v.roots()[SPECIAL_NIL as int] && v.with_roots(r).specials.len()
            == v.specials.len(),
{
    assert(v.with_roots(r).roots() =~= r);
}

/// What a scavenge starts from.
pub open spec fn beginning(v: VmView, old: Seq<usize>) -> Copies {
    Copies {
        spare: Seq::empty(),
        source: Map::empty(),
        open: Set::new(|o: int| listed(v.heap.ssb, o) || (v.running_stack() == Some(o) && listed(old, o))),
    }
}

#[verifier::rlimit(60)]
pub(crate) proof fn lemma_beginning(v: VmView, young: Seq<usize>, old: Seq<usize>, live: Set<int>)
    requires
        v.sound(young, old, live),
    ensures
        beginning(v, old).ok(v.objects(young, old, live), ScavView::start(v.heap)),
        v.objects(young, old, live).sound(),
{
    reveal(VmView::sound);
    let b = v.objects(young, old, live);
    let c = beginning(v, old);
    let s = ScavView::start(v.heap);
    let h = v.heap;
    assert(c.placed(b, s)) by {
        reveal(Copies::placed);
        reveal(Objects::sound);
    }
    assert(c.queued(s)) by {
        reveal(Copies::queued);
    }
    assert(c.forwarding(b, h)) by {
        reveal(Copies::forwarding);
    }
    assert(c.matching(b, h)) by {
        reveal(Copies::matching);
        assert forall|o: int| #[trigger] c.stands(b, o) implies alike(
            h,
            c.origin(o),
            h,
            o,
            c.open.contains(o),
        ) by {
            assert(b.lists(o));
            assert(h.read(o) & 1 == 0) by {
                reveal(Objects::sound);
            }
            assert forall|i: int| 0 <= i < h.nslots(o) implies slot_ok(
                h.hdr(o).byte_format(),
                h,
                h.slot(o, i),
                #[trigger] h.slot(o, i),
                c.open.contains(o),
            ) by {
            }
        }
    }
}

/// The order of the words in the remembered set says nothing of the objects.
#[verifier::rlimit(60)]
pub(crate) proof fn lemma_ssb_aside(b: Objects, s: ScavView, c: Copies, ssb: Seq<usize>)
    requires
        c.ok(b, s),
    ensures
        c.ok(b, (ScavView { heap: HeapView { ssb, ..s.heap }, ..s })),
        forall|v: Value, w: Value| #[trigger]
            is_image(s.heap, v, w) ==> is_image(HeapView { ssb, ..s.heap }, v, w),
{
    let h = s.heap;
    let h1 = HeapView { ssb, ..h };
    let s1 = ScavView { heap: h1, ..s };
    assert(forall|x: int| #[trigger] h1.read(x) == h.read(x)) by {
        reveal(HeapView::read);
    }
    assert(c.placed(b, s1)) by {
        reveal(Copies::placed);
        lemma_tiles_kept(h, h1, c.spare, h.to.base, h.to.top());
        lemma_tiles_kept(h, h1, s.tenured, b.heap.old.top(), h.old.top());
        lemma_tiles_kept(h, h1, b.old, h.old.base, b.heap.old.top());
    }
    assert(c.queued(s1)) by {
        reveal(Copies::queued);
    }
    assert(c.forwarding(b, h1)) by {
        reveal(Copies::forwarding);
    }
    assert(c.matching(b, h1)) by {
        reveal(Copies::matching);
        assert forall|o: int| #[trigger] c.stands(b, o) implies alike(
            b.heap,
            c.origin(o),
            h1,
            o,
            c.open.contains(o),
        ) by {
            assert(alike(b.heap, c.origin(o), h, o, c.open.contains(o)));
            assert forall|i: int| 0 <= i < b.heap.nslots(c.origin(o)) implies slot_ok(
                b.heap.hdr(c.origin(o)).byte_format(),
                h1,
                b.heap.slot(c.origin(o), i),
                #[trigger] h1.slot(o, i),
                c.open.contains(o),
            ) by {
                assert(slot_ok(
                    b.heap.hdr(c.origin(o)).byte_format(),
                    h,
                    b.heap.slot(c.origin(o), i),
                    h.slot(o, i),
                    c.open.contains(o),
                ));
            }
        }
    }
}

/// The running stack was forwarded and scanned.
#[verifier::rlimit(60)]
pub(crate) proof fn lemma_stack_keeps(
    b: Objects,
    v: VmView,
    s: ScavView,
    c: Copies,
    active: Value,
    nil: Value,
    threshold: u64,
) -> (c1: Copies)
    requires
        b.sound(),
        b.heap == v.heap,
        c.ok(b, s),
        b.known(v.active),
        b.known(v.nil()),
        is_image(s.heap, v.active, active),
        is_image(s.heap, v.nil(), nil),
        v.active.tagged_ptr() && b.heap.plausible(v.active.addr()) ==> !b.heap.hdr(
            v.active.addr(),
        ).byte_format(),
    ensures
        s.stack_scanned(active, nil, threshold) matches Some((s1, stack)) ==> {
            &&& c1.ok(b, s1)
            &&& advanced(c, s, c1, s1)
            &&& v.running_stack() matches Some(o) ==> listed(b.old, o) ==> !c1.open.contains(o)
                && listed(stack, o)
            &&& forall|k: int| 0 <= k < stack.len() ==> c1.stands(b, (#[trigger] stack[k]) as int)
                && s1.heap.tenured(stack[k] as int)
        },
{
    assert(s.heap.layout() == b.heap.layout()) by {
        reveal(Copies::placed);
    }
    let av = v.active;
    let nv = v.nil();
    crate::value::lemma_untag_bits(av);
    crate::value::lemma_untag_bits(active);
    if av.tagged_ptr() && b.heap.plausible(av.addr()) {
        lemma_image_stands(b, s, c, av, active);
    }
    let p = active.addr();
    if !active.tagged_ptr() || active == nil {
        if active == nil {
            lemma_image_inj(b, s, c, av, nv, nil);
        }
        c
    } else if !s.heap.shaped(p, PROCESS_STACK + 1) {
        c
    } else {
        let a = c.origin(p);
        assert(c.stands(b, p) && a == av.addr());
        assert(alike(b.heap, a, s.heap, p, c.open.contains(p))) by {
            reveal(Copies::matching);
        }
        lemma_alike_size(b.heap, a, s.heap, p, c.open.contains(p));
        let i = PROCESS_STACK as int;
        let st = s.heap.slot(p, i);
        let v0 = b.heap.slot(a, i);
        lemma_slot_known(b, s, c, p, i);
        crate::value::lemma_untag_bits(v0);
        crate::value::lemma_untag_bits(st);
        if !st.tagged_ptr() || st == nil {
            if st == nil {
                if st == v0 {
                    assert(!s.heap.young(st.addr()) || !st.tagged_ptr()) by {
                        if st.tagged_ptr() && s.heap.young(st.addr()) {
                            lemma_image_out(b, s, c, nv, nil);
                        }
                    }
                    assert(is_image(s.heap, v0, nil));
                }
                lemma_image_inj(b, s, c, v0, nv, nil);
            } else if st != v0 {
                if v0.tagged_ptr() && b.heap.plausible(v0.addr()) {
                    lemma_image_stands(b, s, c, v0, st);
                }
            }
            c
        } else {
            let c1 = lemma_forward_keeps(b, s, c, st, threshold);
            match s.forward(st, threshold) {
                None => c,
                Some((s1, f)) => {
                    assert(s1.heap.layout() == s.heap.layout()) by {
                        reveal(Copies::placed);
                    }
                    assert(is_image(s1.heap, v0, f)) by {
                        if st != v0 {
                            assert(is_image(s.heap, v0, st));
                            assert(is_image(s1.heap, v0, st));
                        }
                    }
                    let s2 = if f != st {
                        ScavView { heap: s1.heap.set_slot(p, i, f), ..s1 }
                    } else {
                        s1
                    };
                    if f != st {
                        lemma_store_keeps(b, s1, c1, p, i, f);
                    }
                    assert(is_image(s2.heap, v0, f));
                    let o = f.addr();
                    if v0.tagged_ptr() && b.heap.plausible(v0.addr()) {
                        lemma_image_stands(b, s2, c1, v0, f);
                        let c2 = lemma_scan_keeps(b, s2, c1, o, threshold);
                        if let Some(s3) = s2.scan(o, threshold) {
                            lemma_chain(c, s, c1, s1, s2, c2, s3);
                            let stack = if s3.heap.tenured(o) {
                                seq![o as usize]
                            } else {
                                Seq::empty()
                            };
                            assert(s3.heap.layout() == s.heap.layout() && s2.heap.layout()
                                == s.heap.layout()) by {
                                reveal(Copies::placed);
                            }
                            lemma_stand_apart(b, s2, c1, o, o);
                            assert(o <= usize::MAX) by {
                                reveal(Copies::placed);
                            }
                            if let Some(x) = v.running_stack() {
                                assert(x == v0.addr());
                                if listed(b.old, x) {
                                    lemma_old_tenured(b, x);
                                    assert(f == v0);
                                    assert(stack[0] == x);
                                }
                            }
                        }
                        c2
                    } else {
                        assert(s2.heap.layout() == s.heap.layout()) by {
                            reveal(Copies::placed);
                        }
                        c1
                    }
                },
            }
        }
    }
}

/// Images lie outside of young space.
proof fn lemma_image_out(b: Objects, s: ScavView, c: Copies, v: Value, w: Value)
    requires
        b.sound(),
        c.ok(b, s),
        b.known(v),
        is_image(s.heap, v, w),
    ensures
        !(w.tagged_ptr() && s.heap.young(w.addr())),
{
    assert(s.heap.layout() == b.heap.layout()) by {
        reveal(Copies::placed);
    }
    crate::value::lemma_untag_bits(v);
    if v.tagged_ptr() && s.heap.young(v.addr()) {
        lemma_image_stands(b, s, c, v, w);
        lemma_stand_apart(b, s, c, w.addr(), w.addr());
    }
}

proof fn lemma_old_tenured(b: Objects, x: int)
    requires
        b.sound(),
        listed(b.old, x),
    ensures
        b.heap.tenured(x),
        !b.heap.young(x),
        b.heap.plausible(x),
        b.heap.whole(x),
{
    reveal(Objects::sound);
    lemma_within(b.heap, b.old, b.heap.old.base, b.heap.old.top(), x);
}

proof fn lemma_chain(
    c: Copies,
    s: ScavView,
    c1: Copies,
    s1: ScavView,
    s2: ScavView,
    c2: Copies,
    s3: ScavView,
)
    requires
        advanced(c, s, c1, s1),
        s2 == s1 || advanced(c1, s1, c1, s2),
        advanced(c1, s2, c2, s3),
    ensures
        advanced(c, s, c2, s3),
{
    if s2 != s1 {
        crate::graph::lemma_advanced_twice(c, s, c1, s1, c1, s2);
    }
    crate::graph::lemma_advanced_twice(c, s, c1, s2, c2, s3);
}

// ---------------------------------------------------------------------------
// All that is reached
// ---------------------------------------------------------------------------
/// What copying everything that is reachable gives.
pub open spec fn all_copied(b: Objects, v: VmView, sv: Survivors, c: Copies) -> bool {
    &&& c.ok(b, sv.scav)
    &&& c.open =~= Set::empty()
    &&& sv.scav.heap.ssb.len() == 0
    &&& sv.roots.len() == v.roots().len()
    &&& forall|k: int|
        0 <= k < v.roots().len() ==> is_image(
            sv.scav.heap,
            v.roots()[k],
            #[trigger] sv.roots[k],
        )
    &&& forall|k: int|
        0 <= k < sv.suspects.len() ==> c.stands(b, (#[trigger] sv.suspects[k]) as int)
            && sv.scav.heap.tenured(sv.suspects[k] as int)
    &&& forall|o: int| #[trigger] listed(v.heap.ssb, o) ==> listed(sv.suspects, o)
    &&& forall|o: int| #[trigger] listed(sv.scav.tenured, o) ==> listed(sv.suspects, o)
    &&& v.running_stack() matches Some(o) ==> listed(b.old, o) ==> listed(sv.suspects, o)
}

#[verifier::rlimit(60)]
proof fn lemma_joined(a: Seq<usize>, b: Seq<usize>, c: Seq<usize>)
    ensures
        forall|o: int| #[trigger] listed(a, o) ==> listed(a + b + c, o),
        forall|o: int| #[trigger] listed(b, o) ==> listed(a + b + c, o),
        forall|o: int| #[trigger] listed(c, o) ==> listed(a + b + c, o),
        forall|o: int| #[trigger] listed(a + b + c, o) ==> listed(a, o) || listed(b, o) || listed(
            c,
            o,
        ),
{
    let t = a + b + c;
    assert forall|o: int| #[trigger] listed(a, o) implies listed(t, o) by {
        let i = choose|i: int| 0 <= i < a.len() && #[trigger] a[i] == o;
        assert(t[i] == o);
    }
    assert forall|o: int| #[trigger] listed(b, o) implies listed(t, o) by {
        let i = choose|i: int| 0 <= i < b.len() && #[trigger] b[i] == o;
        assert(t[a.len() + i] == o);
    }
    assert forall|o: int| #[trigger] listed(c, o) implies listed(t, o) by {
        let i = choose|i: int| 0 <= i < c.len() && #[trigger] c[i] == o;
        assert(t[a.len() + b.len() + i] == o);
    }
    assert forall|o: int| #[trigger] listed(t, o) implies listed(a, o) || listed(b, o) || listed(
        c,
        o,
    ) by {
        let i = choose|i: int| 0 <= i < t.len() && #[trigger] t[i] == o;
        if i < a.len() {
            assert(a[i] == o);
        } else if i < a.len() + b.len() {
            assert(b[i - a.len()] == o);
        } else {
            assert(c[i - a.len() - b.len()] == o);
        }
    }
}

/// The objects found to be old and perhaps pointing young.
#[verifier::rlimit(60)]
proof fn lemma_suspects(
    b: Objects,
    v: VmView,
    s5: ScavView,
    c5: Copies,
    ssb: Seq<usize>,
    stack: Seq<usize>,
)
    requires
        b.sound(),
        c5.ok(b, s5),
        forall|k: int| 0 <= k < ssb.len() ==> listed(b.old, (#[trigger] ssb[k]) as int),
        forall|k: int|
            0 <= k < stack.len() ==> c5.stands(b, (#[trigger] stack[k]) as int)
                && s5.heap.tenured(stack[k] as int),
    ensures
        ({
            let all = ssb + s5.tenured + stack;
            forall|k: int|
                0 <= k < all.len() ==> c5.stands(b, (#[trigger] all[k]) as int)
                    && s5.heap.tenured(all[k] as int)
        }),
{
    let all = ssb + s5.tenured + stack;
    assert(s5.heap.layout() == b.heap.layout()) by {
        reveal(Copies::placed);
    }
    assert forall|k: int| 0 <= k < all.len() implies c5.stands(b, (#[trigger] all[k]) as int)
        && s5.heap.tenured(all[k] as int) by {
        if k < ssb.len() {
            assert(all[k] == ssb[k]);
            lemma_old_tenured(b, ssb[k] as int);
        } else if k < ssb.len() + s5.tenured.len() {
            let j = k - ssb.len();
            assert(all[k] == s5.tenured[j]);
            assert(listed(s5.tenured, s5.tenured[j] as int));
            reveal(Copies::placed);
            lemma_within(
                s5.heap,
                s5.tenured,
                b.heap.old.top(),
                s5.heap.old.top(),
                s5.tenured[j] as int,
            );
        } else {
            assert(all[k] == stack[k - ssb.len() - s5.tenured.len()]);
        }
    }
}

#[verifier::rlimit(60)]
#[verifier::spinoff_prover]
pub(crate) proof fn lemma_survivors(v: VmView, young: Seq<usize>, old: Seq<usize>, live: Set<int>) -> (c: Copies)
    requires
        v.sound(young, old, live),
    ensures
        v.survivors() matches Some(sv) ==> all_copied(v.objects(young, old, live), v, sv, c),
{
    let b = v.objects(young, old, live);
    let t = v.tenure;
    let c0 = beginning(v, old);
    let s0 = ScavView::start(v.heap);
    lemma_beginning(v, young, old, live);
    assert(forall|i: int| 0 <= i < v.roots().len() ==> b.known(#[trigger] v.roots()[i])) by {
        reveal(VmView::sound);
    }
    let c1 = lemma_forward_all_keeps(b, s0, c0, v.roots(), 0, t);
    match s0.forward_all(v.roots(), 0, t) {
        None => c0,
        Some((s1, roots)) => {
            lemma_with_roots(v, roots);
            let w = v.with_roots(roots);
            let last = v.roots().len() - 1;
            assert(v.specials.len() > SPECIAL_NIL) by {
                reveal(VmView::sound);
            }
            assert(v.roots().len() > SPECIAL_NIL);
            assert(is_image(s1.heap, v.roots()[last], roots[last]));
            assert(is_image(s1.heap, v.roots()[SPECIAL_NIL as int], roots[SPECIAL_NIL as int]));
            assert(v.active.tagged_ptr() && v.heap.plausible(v.active.addr()) ==> !v.heap.hdr(
                v.active.addr(),
            ).byte_format()) by {
                reveal(VmView::sound);
            }
            assert(b.known(v.roots()[last]) && b.known(v.roots()[SPECIAL_NIL as int]));
            let c2 = lemma_stack_keeps(b, v, s1, c1, w.active, w.nil(), t);
            match s1.stack_scanned(w.active, w.nil(), t) {
                None => c0,
                Some((s2, stack)) => {
                    let ssb = s2.heap.ssb;
                    assert(ssb == v.heap.ssb);
                    let s3 = ScavView { heap: HeapView { ssb: Seq::empty(), ..s2.heap }, ..s2 };
                    lemma_ssb_aside(b, s2, c2, Seq::empty());
                    assert(forall|k: int|
                        0 <= k < ssb.len() ==> listed(b.old, (#[trigger] ssb[k]) as int)) by {
                        reveal(VmView::sound);
                    }
                    let c4 = lemma_scan_all_keeps(b, s3, c2, ssb, 0, t);
                    match s3.scan_all(ssb, 0, t) {
                        None => c0,
                        Some(s4) => {
                            assert forall|o: int| #[trigger] c4.open.contains(o) implies listed(
                                s4.work,
                                o,
                            ) by {
                                lemma_open_queued(b, v, c0, s0, c1, s1, c2, s2, s3, c4, s4, o);
                            }
                            let c5 = lemma_drain_keeps(b, s4, c4, t);
                            if let Some(s5) = s4.drain(t) {
                                lemma_finish(b, v, c1, s1, c2, s2, s3, c4, s4, c5, s5, roots, stack);
                            }
                            c5
                        },
                    }
                },
            }
        },
    }
}

/// What is open once the roots, the stack and the remembered set are done
/// is in the queue.
pub(crate) proof fn lemma_open_queued(
    b: Objects,
    v: VmView,
    c0: Copies,
    s0: ScavView,
    c1: Copies,
    s1: ScavView,
    c2: Copies,
    s2: ScavView,
    s3: ScavView,
    c4: Copies,
    s4: ScavView,
    o: int,
)
    requires
        b.sound(),
        c0 == beginning(v, b.old),
        advanced(c0, s0, c1, s1),
        c2.ok(b, s2),
        advanced(c1, s1, c2, s2),
        v.running_stack() matches Some(x) ==> listed(b.old, x) ==> !c2.open.contains(x),
        s3.work == s2.work,
        c4.ok(b, s4),
        advanced(c2, s3, c4, s4),
        forall|k: int| 0 <= k < v.heap.ssb.len() ==> !c4.open.contains(#[trigger] v.heap.ssb[k] as int),
        c4.open.contains(o),
    ensures
        listed(s4.work, o),
{
    if !listed(s4.work, o) {
        assert(c2.open.contains(o));
        assert(!listed(s3.work, o));
        assert(!listed(s2.work, o));
        assert(c1.open.contains(o));
        assert(!listed(s1.work, o));
        assert(c0.open.contains(o));
        if listed(v.heap.ssb, o) {
            let k = choose|k: int| 0 <= k < v.heap.ssb.len() && #[trigger] v.heap.ssb[k] == o;
            assert(!c4.open.contains(v.heap.ssb[k] as int));
        } else {
            assert(v.running_stack() == Some(o) && listed(b.old, o));
        }
    }
}

#[verifier::rlimit(60)]
proof fn lemma_finish(
    b: Objects,
    v: VmView,
    c1: Copies,
    s1: ScavView,
    c2: Copies,
    s2: ScavView,
    s3: ScavView,
    c4: Copies,
    s4: ScavView,
    c5: Copies,
    s5: ScavView,
    roots: Seq<Value>,
    stack: Seq<usize>,
)
    requires
        b.sound(),
        b.heap == v.heap,
        roots.len() == v.roots().len(),
        forall|k: int|
            0 <= k < roots.len() ==> is_image(s1.heap, v.roots()[k], #[trigger] roots[k]),
        advanced(c1, s1, c2, s2),
        c2.ok(b, s2),
        s3 == (ScavView { heap: HeapView { ssb: Seq::empty(), ..s2.heap }, ..s2 }),
        forall|u: Value, w: Value| #[trigger]
            is_image(s2.heap, u, w) ==> is_image(s3.heap, u, w),
        advanced(c2, s3, c4, s4),
        kept(c4, s4, c5, s5),
        c5.ok(b, s5),
        c5.open =~= Set::empty(),
        s2.heap.ssb == v.heap.ssb,
        forall|k: int|
            0 <= k < v.heap.ssb.len() ==> listed(b.old, (#[trigger] v.heap.ssb[k]) as int),
        forall|k: int|
            0 <= k < stack.len() ==> c2.stands(b, (#[trigger] stack[k]) as int)
                && s2.heap.tenured(stack[k] as int),
        v.running_stack() matches Some(o) ==> listed(b.old, o) ==> listed(stack, o),
    ensures
        all_copied(
            b,
            v,
            Survivors { scav: s5, roots, suspects: v.heap.ssb + s5.tenured + stack },
            c5,
        ),
{
    let ssb = v.heap.ssb;
    assert forall|k: int| 0 <= k < roots.len() implies is_image(
        s5.heap,
        v.roots()[k],
        #[trigger] roots[k],
    ) by {
        assert(is_image(s1.heap, v.roots()[k], roots[k]));
        assert(is_image(s2.heap, v.roots()[k], roots[k]));
        assert(is_image(s3.heap, v.roots()[k], roots[k]));
        assert(is_image(s4.heap, v.roots()[k], roots[k]));
    }
    assert(s5.heap.layout() == b.heap.layout() && s2.heap.layout() == b.heap.layout()) by {
        reveal(Copies::placed);
    }
    assert forall|k: int| 0 <= k < stack.len() implies c5.stands(b, (#[trigger] stack[k]) as int)
        && s5.heap.tenured(stack[k] as int) by {
        assert(c2.stands(b, stack[k] as int));
        if c2.source.dom().contains(stack[k] as int) {
            assert(c4.source.dom().contains(stack[k] as int));
        }
    }
    lemma_suspects(b, v, s5, c5, ssb, stack);
    lemma_joined(ssb, s5.tenured, stack);
}

// ---------------------------------------------------------------------------
// The spaces exchanged and the remembered set rebuilt
// ---------------------------------------------------------------------------
/// Two heaps hold the same words wherever their objects can be.
pub open spec fn same_extent(h: HeapView, h1: HeapView) -> bool {
    &&& forall|x: int| #[trigger] h1.plausible(x) == h.plausible(x)
    &&& forall|x: int| h.plausible(x) ==> #[trigger] h1.limit_of(x) == h.limit_of(x)
}

pub(crate) proof fn lemma_tiles_carried(h: HeapView, h1: HeapView, objs: Seq<usize>, p: int, top: int)
    requires
        tiles(h, objs, p, top),
        same_extent(h, h1),
        forall|i: int| 0 <= i < objs.len() ==> same_size(h, h1, (#[trigger] objs[i]) as int),
    ensures
        tiles(h1, objs, p, top),
{
    assert forall|i: int| 0 <= i < objs.len() implies h1.whole((#[trigger] objs[i]) as int)
        && h1.nslots(objs[i] as int) == h.nslots(objs[i] as int) && h1.storage_start(
        objs[i] as int,
    ) == h.storage_start(objs[i] as int) by {
        let o = objs[i] as int;
        assert(same_size(h, h1, o));
        assert(h1.plausible(o) == h.plausible(o));
        assert(h1.plausible(o - 8) == h.plausible(o - 8));
        assert(h1.limit_of(o) == h.limit_of(o));
    }
}

#[verifier::rlimit(60)]
proof fn lemma_tiles_joined(h: HeapView, a: Seq<usize>, b: Seq<usize>, p: int, q: int, r: int)
    requires
        tiles(h, a, p, q),
        tiles(h, b, q, r),
        p <= q <= r,
    ensures
        tiles(h, a + b, p, r),
{
    let t = a + b;
    if b.len() > 0 {
        assert(t.last() == b.last());
    } else {
        assert(t =~= a);
    }
    if a.len() > 0 {
        assert(t[0] == a[0]);
    } else {
        assert(t =~= b);
    }
    assert forall|i: int| 0 <= i < t.len() implies h.whole((#[trigger] t[i]) as int) && p
        <= h.storage_start(t[i] as int) && fin(h, t[i] as int) <= r by {
        if i < a.len() {
            assert(t[i] == a[i]);
        } else {
            assert(t[i] == b[i - a.len()]);
        }
    }
    assert forall|i: int, j: int| 0 <= i < j < t.len() implies fin(h, (#[trigger] t[i]) as int)
        <= h.storage_start((#[trigger] t[j]) as int) by {
        if i < a.len() {
            assert(t[i] == a[i]);
        } else {
            assert(t[i] == b[i - a.len()]);
        }
        if j < a.len() {
            assert(t[j] == a[j]);
        } else {
            assert(t[j] == b[j - a.len()]);
        }
    }
    assert forall|i: int, j: int|
        0 <= i < t.len() && 0 <= j < t.len() && j == i + 1 implies fin(
        h,
        (#[trigger] t[i]) as int,
    ) == h.storage_start((#[trigger] t[j]) as int) by {
        if j < a.len() {
            assert(t[i] == a[i] && t[j] == a[j]);
        } else if i >= a.len() {
            assert(t[i] == b[i - a.len()] && t[j] == b[j - a.len()]);
        } else {
            assert(t[i] == a.last() && t[j] == b[0]);
        }
    }
}

/// An exchange of the young spaces leaves every other word where it was.
pub(crate) proof fn lemma_flipped(h: HeapView)
    requires
        h.wf(),
    ensures
        h.flipped().wf(),
        same_extent(h, h.flipped()),
        forall|x: int| !h.young(x) ==> #[trigger] h.flipped().read(x) == h.read(x),
        forall|x: int| #[trigger]
            h.plausible(x) ==> (h.flipped().young(x) <==> !h.young(x) && !h.tenured(x)),
        forall|x: int| #[trigger] h.flipped().tenured(x) == h.tenured(x),
{
    reveal(HeapView::read);
    let f = h.flipped();
    assert(f.from == h.to);
    assert(f.to.base == h.from.base && f.to.limit() == h.from.limit());
}

/// Bits of a header when an object is remembered or forgotten.
pub(crate) proof fn lemma_remembered_bits(g: u64)
    requires
        g <= 255,
    ensures
        g | 2 <= 255,
        g & !2u64 <= 255,
        (g | 2) & 1 == g & 1,
        (g & !2u64) & 1 == g & 1,
        (g | 2) & 0x84 == g & 0x84,
        (g & !2u64) & 0x84 == g & 0x84,
        (g | 2) & 2 != 0,
        (g & !2u64) & 2 == 0,
{
    assert(g | 2 <= 255 && g & !2u64 <= 255 && (g | 2) & 1 == g & 1 && (g & !2u64) & 1 == g & 1 && (g
        | 2) & 0x84 == g & 0x84 && (g & !2u64) & 0x84 == g & 0x84 && (g | 2) & 2 != 0 && (g
        & !2u64) & 2 == 0) by (bit_vector)
        requires
            g <= 255,
    ;
}

/// A header with other collector bits names the same object.
pub(crate) proof fn lemma_regc(hd: Header, bits: u64)
    requires
        bits <= 255,
        bits & 1 == hd.gc_field() & 1,
        bits & 0x84 == hd.gc_field() & 0x84,
    ensures
        same_fields(hd, hd.regc(bits)),
        hd.regc(bits).0 & 1 == hd.0 & 1,
{
    crate::heap::lemma_header_update(hd, 0, bits);
    lemma_low_bit(hd.0);
    lemma_low_bit(hd.regc(bits).0);
}

/// Two heaps agree on the object at `o` but for its collector bits.
pub open spec fn same_body(h: HeapView, h1: HeapView, o: int) -> bool {
    &&& same_fields(h.hdr(o), h1.hdr(o))
    &&& h1.read(o) & 1 == h.read(o) & 1
    &&& h.has_over(o) ==> h1.read(o - 8) == h.read(o - 8)
    &&& forall|i: int| 0 <= i < h.nslots(o) ==> #[trigger] h1.slot(o, i) == h.slot(o, i)
}

pub(crate) proof fn lemma_body_young(h: HeapView, h1: HeapView, o: int)
    requires
        same_body(h, h1, o),
        h1.layout() == h.layout(),
    ensures
        h1.points_young(o) == h.points_young(o),
        h1.nslots(o) == h.nslots(o),
        h1.hdr(o).byte_format() == h.hdr(o).byte_format(),
{
    if h.points_young(o) {
        let i = choose|i: int|
            0 <= i < h.nslots(o) && (#[trigger] h.slot(o, i)).tagged_ptr() && h.young(
                h.slot(o, i).addr(),
            );
        assert(h1.slot(o, i) == h.slot(o, i));
    }
    if h1.points_young(o) {
        let i = choose|i: int|
            0 <= i < h1.nslots(o) && (#[trigger] h1.slot(o, i)).tagged_ptr() && h1.young(
                h1.slot(o, i).addr(),
            );
        assert(h1.slot(o, i) == h.slot(o, i));
    }
}

/// What one header write does to the objects of a list.
#[verifier::rlimit(60)]
pub(crate) proof fn lemma_header_write(h: HeapView, objs: Seq<usize>, p: int, top: int, o: int, bits: u64)
    requires
        h.wf(),
        tiles(h, objs, p, top),
        listed(objs, o),
        bits <= 255,
        bits & 1 == h.hdr(o).gc_field() & 1,
        bits & 0x84 == h.hdr(o).gc_field() & 0x84,
    ensures
        ({
            let h1 = h.write(o, h.hdr(o).regc(bits).0);
            &&& h1.wf()
            &&& h1.layout() == h.layout()
            &&& h1.from.alloc == h.from.alloc
            &&& h1.to.alloc == h.to.alloc
            &&& h1.old.alloc == h.old.alloc
            &&& h1.ssb == h.ssb
            &&& forall|x: int| h.plausible(x) && x != o ==> #[trigger] h1.read(x) == h.read(x)
            &&& forall|a: int| #[trigger] listed(objs, a) ==> same_body(h, h1, a)
            &&& tiles(h1, objs, p, top)
        }),
{
    let h1 = h.write(o, h.hdr(o).regc(bits).0);
    lemma_within(h, objs, p, top, o);
    lemma_reads_after_write(h, o, h.hdr(o).regc(bits).0);
    lemma_regc(h.hdr(o), bits);
    assert forall|a: int| #[trigger] listed(objs, a) implies same_body(h, h1, a) by {
        lemma_within(h, objs, p, top, a);
        if h.has_over(a) {
            assert(h.plausible(a - 8));
            if a - 8 == o {
                crate::graph::lemma_inside(h, objs, p, top, a, a - 8);
            }
        }
        assert forall|i: int| 0 <= i < h.nslots(a) implies #[trigger] h1.slot(a, i) == h.slot(
            a,
            i,
        ) by {
            let x = a + 8 + 8 * i;
            assert(h.plausible(x));
            if x == o {
                crate::graph::lemma_inside(h, objs, p, top, a, x);
            }
        }
    }
    assert forall|k: int| 0 <= k < objs.len() implies same_size(h, h1, (#[trigger] objs[k]) as int)
        by {
        assert(listed(objs, objs[k] as int));
    }
    lemma_tiles_kept(h, h1, objs, p, top);
}

/// What rebuilding the remembered set from a list does.
pub open spec fn rechecked(h: HeapView, r: HeapView, objs: Seq<usize>, list: Seq<usize>, i: int) -> bool {
    &&& r.wf()
    &&& r.layout() == h.layout()
    &&& r.from.alloc == h.from.alloc
    &&& r.to.alloc == h.to.alloc
    &&& r.old.alloc == h.old.alloc
    &&& forall|x: int| h.plausible(x) && !listed(objs, x) ==> #[trigger] r.read(x) == h.read(x)
    &&& forall|a: int| #[trigger] listed(objs, a) ==> same_body(h, r, a)
    &&& forall|x: int| #[trigger] listed(r.ssb, x) ==> listed(h.ssb, x) || listed(list, x)
    &&& forall|x: int| #[trigger] listed(h.ssb, x) ==> listed(r.ssb, x)
    &&& forall|k: int|
        i <= k < list.len() && h.points_young(#[trigger] list[k] as int) ==> listed(
            r.ssb,
            list[k] as int,
        )
}

#[verifier::rlimit(60)]
#[verifier::spinoff_prover]
pub(crate) proof fn lemma_recheck(h: HeapView, objs: Seq<usize>, p: int, top: int, list: Seq<usize>, i: int)
    requires
        h.wf(),
        tiles(h, objs, p, top),
        0 <= i,
        forall|k: int| 0 <= k < list.len() ==> listed(objs, (#[trigger] list[k]) as int),
    ensures
        rechecked(h, h.recheck(list, i), objs, list, i),
    decreases list.len() - i,
{
    if i < list.len() {
        let o = list[i] as int;
        let g = h.hdr(o).gc_field();
        assert(listed(objs, list[i] as int));
        lemma_within(h, objs, p, top, o);
        crate::heap::lemma_header_update(h.hdr(o), 0, 0);
        lemma_remembered_bits(g);
        lemma_header_write(h, objs, p, top, o, g | 2);
        lemma_header_write(h, objs, p, top, o, g & !2u64);
        let h1 = if h.points_young(o) {
            let h2 = if g & 2 == 0 {
                h.write(o, h.hdr(o).regc(g | 2).0)
            } else {
                h
            };
            HeapView { ssb: h2.ssb.push(o as usize), ..h2 }
        } else if g & 2 != 0 {
            h.write(o, h.hdr(o).regc(g & !2u64).0)
        } else {
            h
        };
        lemma_recheck_step(h, h1, objs, p, top, o);
        lemma_recheck(h1, objs, p, top, list, i + 1);
        lemma_recheck_join(h, h1, h1.recheck(list, i + 1), objs, list, i);
    }
}

/// What one step of the rebuilding does.
pub open spec fn rechecked_one(h: HeapView, h1: HeapView, objs: Seq<usize>, o: int) -> bool {
    &&& h1.wf()
    &&& h1.layout() == h.layout()
    &&& h1.from.alloc == h.from.alloc
    &&& h1.to.alloc == h.to.alloc
    &&& h1.old.alloc == h.old.alloc
    &&& forall|x: int| h.plausible(x) && x != o ==> #[trigger] h1.read(x) == h.read(x)
    &&& forall|a: int| #[trigger] listed(objs, a) ==> same_body(h, h1, a)
    &&& h1.ssb == h.ssb || h1.ssb == h.ssb.push(o as usize)
    &&& h.points_young(o) ==> h1.ssb == h.ssb.push(o as usize)
}

#[verifier::rlimit(60)]
pub(crate) proof fn lemma_recheck_step(h: HeapView, h1: HeapView, objs: Seq<usize>, p: int, top: int, o: int)
    requires
        h.wf(),
        tiles(h, objs, p, top),
        listed(objs, o),
        ({
            let g = h.hdr(o).gc_field();
            h1 == if h.points_young(o) {
                let h2 = if g & 2 == 0 {
                    h.write(o, h.hdr(o).regc(g | 2).0)
                } else {
                    h
                };
                HeapView { ssb: h2.ssb.push(o as usize), ..h2 }
            } else if g & 2 != 0 {
                h.write(o, h.hdr(o).regc(g & !2u64).0)
            } else {
                h
            }
        }),
    ensures
        rechecked_one(h, h1, objs, o),
        tiles(h1, objs, p, top),
{
    let g = h.hdr(o).gc_field();
    crate::heap::lemma_header_update(h.hdr(o), 0, 0);
    lemma_remembered_bits(g);
    lemma_header_write(h, objs, p, top, o, g | 2);
    lemma_header_write(h, objs, p, top, o, g & !2u64);
    let w = h.write(o, h.hdr(o).regc(g | 2).0);
    assert(forall|x: int| #[trigger]
        (HeapView { ssb: w.ssb.push(o as usize), ..w }).read(x) == w.read(x)) by {
        reveal(HeapView::read);
    }
    assert(forall|x: int| #[trigger]
        (HeapView { ssb: h.ssb.push(o as usize), ..h }).read(x) == h.read(x)) by {
        reveal(HeapView::read);
    }
    assert forall|a: int| #[trigger] listed(objs, a) implies same_body(h, h1, a) by {
        assert(same_body(h, w, a));
        if h.points_young(o) {
            let h2 = if g & 2 == 0 {
                w
            } else {
                h
            };
            assert forall|i: int| 0 <= i < h.nslots(a) implies #[trigger] h1.slot(a, i) == h.slot(
                a,
                i,
            ) by {
                assert(h1.slot(a, i) == h2.slot(a, i));
                assert(w.slot(a, i) == h.slot(a, i));
            }
        }
    }
    assert forall|k: int| 0 <= k < objs.len() implies same_size(h, h1, (#[trigger] objs[k]) as int)
        by {
        assert(listed(objs, objs[k] as int));
    }
    lemma_tiles_kept(h, h1, objs, p, top);
}

#[verifier::rlimit(60)]
proof fn lemma_recheck_join(
    h: HeapView,
    h1: HeapView,
    r: HeapView,
    objs: Seq<usize>,
    list: Seq<usize>,
    i: int,
)
    requires
        0 <= i < list.len(),
        listed(objs, list[i] as int),
        forall|k: int| 0 <= k < list.len() ==> listed(objs, (#[trigger] list[k]) as int),
        rechecked_one(h, h1, objs, list[i] as int),
        rechecked(h1, r, objs, list, i + 1),
    ensures
        rechecked(h, r, objs, list, i),
{
    let o = list[i] as int;
    crate::graph::lemma_listed_push(h.ssb, o as usize);
    assert(listed(list, o));
    assert forall|a: int| #[trigger] listed(objs, a) implies same_body(h, r, a) by {
        assert(same_body(h, h1, a));
        assert(same_body(h1, r, a));
        assert forall|j: int| 0 <= j < h.nslots(a) implies #[trigger] r.slot(a, j) == h.slot(a, j)
            by {
            assert(h1.slot(a, j) == h.slot(a, j));
            assert(r.slot(a, j) == h1.slot(a, j));
        }
    }
    assert forall|k: int|
        i <= k < list.len() && h.points_young(#[trigger] list[k] as int) implies listed(
        r.ssb,
        list[k] as int,
    ) by {
        if k == i {
            assert(listed(h1.ssb, o));
        } else {
            assert(listed(objs, list[k] as int));
            lemma_body_young(h, h1, list[k] as int);
        }
    }
    assert forall|x: int| #[trigger] listed(r.ssb, x) implies listed(h.ssb, x) || listed(list, x) by {
        if listed(h1.ssb, x) {
        }
    }
    assert forall|x: int| #[trigger] listed(h.ssb, x) implies listed(r.ssb, x) by {
        assert(listed(h1.ssb, x));
    }
}

/// Putting a list in order keeps its elements.
#[verifier::rlimit(60)]
pub(crate) proof fn lemma_in_order(list: Seq<usize>, n: int)
    requires
        0 <= n <= list.len(),
    ensures
        forall|o: int| #[trigger]
            listed(in_order(list, n), o) <==> exists|i: int| 0 <= i < n && #[trigger] list[i] == o,
    decreases n,
{
    if n > 0 {
        lemma_in_order(list, n - 1);
        let s = in_order(list, n - 1);
        lemma_one_more(s, list[n - 1]);
        assert forall|o: int| #[trigger] listed(in_order(list, n), o) <==> exists|i: int|
            0 <= i < n && #[trigger] list[i] == o by {
            if listed(in_order(list, n), o) {
                if listed(s, o) {
                    let i = choose|i: int| 0 <= i < n - 1 && #[trigger] list[i] == o;
                    assert(list[i] == o);
                } else {
                    assert(list[n - 1] == o);
                }
            }
            if exists|i: int| 0 <= i < n && #[trigger] list[i] == o {
                let i = choose|i: int| 0 <= i < n && #[trigger] list[i] == o;
                if i < n - 1 {
                    assert(listed(s, o));
                }
            }
        }
    }
}

pub(crate) proof fn lemma_one_more(s: Seq<usize>, x: usize)
    ensures
        forall|o: int| #[trigger] listed(with_element(s, x), o) <==> listed(s, o) || o == x,
    decreases s.len(),
{
    crate::graph::lemma_listed_push(s, x);
    if s.len() == 0 || s.last() < x {
    } else if s.last() == x {
        assert(s[s.len() - 1] == x);
    } else {
        let t = s.drop_last();
        lemma_one_more(t, x);
        crate::graph::lemma_listed_push(with_element(t, x), s.last());
        crate::graph::lemma_listed_push(t, s.last());
        assert(t.push(s.last()) =~= s);
    }
}

// ---------------------------------------------------------------------------
// The law
// ---------------------------------------------------------------------------
/// Where the objects that a scavenge kept are: the old ones where they were,
/// the young ones where their forwarding words say.
pub open spec fn places(b: Objects, h: HeapView) -> Map<int, int> {
    Map::new(
        |a: int| listed(b.old, a) || (listed(b.young, a) && h.read(a) & 1 == 1),
        |a: int|
            if listed(b.old, a) {
                a
            } else {
                (h.read(a) & !1u64) as int
            },
    )
}

/// An image is where the map says.
#[verifier::rlimit(60)]
proof fn lemma_image_follows(b: Objects, s: ScavView, c: Copies, v: Value, w: Value)
    requires
        b.sound(),
        c.ok(b, s),
        b.known(v),
        is_image(s.heap, v, w),
    ensures
        follows(b.heap, places(b, s.heap), v, w),
{
    assert(s.heap.layout() == b.heap.layout()) by {
        reveal(Copies::placed);
    }
    crate::value::lemma_untag_bits(v);
    if v.tagged_ptr() && b.heap.plausible(v.addr()) {
        let a = v.addr();
        if s.heap.young(a) {
            lemma_young_is_young(b, v);
            if listed(b.old, a) {
                lemma_old_tenured(b, a);
            }
        } else if !listed(b.old, a) {
            lemma_young_listed(b, a);
        }
    }
}

/// A kept object stands where the map says.
proof fn lemma_place(b: Objects, s: ScavView, c: Copies, a: int)
    requires
        b.sound(),
        c.ok(b, s),
        places(b, s.heap).dom().contains(a),
    ensures
        c.stands(b, places(b, s.heap)[a]),
        c.origin(places(b, s.heap)[a]) == a,
        b.has(a),
{
    if listed(b.old, a) {
        lemma_old_no_copy(b, s, c, a);
    } else {
        lemma_young_listed(b, a);
        reveal(Copies::forwarding);
        reveal(Copies::placed);
    }
}

/// The heap after the exchange and the rebuilding, seen from a copy.
pub open spec fn settled_from(h: HeapView, r: HeapView, o: int) -> bool {
    &&& same_fields(h.hdr(o), r.hdr(o))
    &&& r.read(o) & 1 == h.read(o) & 1
    &&& r.nslots(o) == h.nslots(o)
    &&& r.storage_start(o) == h.storage_start(o)
    &&& h.has_over(o) ==> r.read(o - 8) == h.read(o - 8)
    &&& forall|i: int| 0 <= i < h.nslots(o) ==> #[trigger] r.slot(o, i) == h.slot(o, i)
}

/// The old objects after a scavenge.
pub open spec fn old_after(b: Objects, s: ScavView) -> Seq<usize> {
    b.old + s.tenured
}

/// The heap after the exchange and the rebuilding.
pub open spec fn heap_after(sv: Survivors) -> HeapView {
    sv.scav.heap.flipped().recheck(in_order(sv.suspects, sv.suspects.len() as int), 0)
}

/// What the exchange and the rebuilding leave.
pub open spec fn exchanged(b: Objects, sv: Survivors, c: Copies) -> bool {
    let h = sv.scav.heap;
    let r = heap_after(sv);
    let old = old_after(b, sv.scav);
    &&& r.wf()
    &&& r.to.alloc == 0
    &&& same_extent(h, r)
    &&& forall|x: int| #[trigger]
        h.plausible(x) ==> (r.young(x) <==> !h.young(x) && !h.tenured(x))
    &&& forall|x: int| #[trigger] r.tenured(x) == h.tenured(x)
    &&& r.from.base == h.to.base && r.from.top() == h.to.top()
    &&& r.old.base == h.old.base && r.old.top() == h.old.top() && r.old.limit() == h.old.limit()
    &&& r.words() == h.words()
    &&& forall|o: int| #[trigger] c.stands(b, o) ==> settled_from(h, r, o)
    &&& tiles(r, c.spare, r.from.base, r.from.top())
    &&& tiles(r, old, r.old.base, r.old.top())
    &&& forall|k: int| 0 <= k < r.ssb.len() ==> listed(old, (#[trigger] r.ssb[k]) as int)
    &&& forall|o: int| #[trigger] listed(sv.suspects, o) && r.points_young(o) ==> listed(r.ssb, o)
}

pub(crate) proof fn lemma_old_after(b: Objects, s: ScavView, c: Copies)
    requires
        b.sound(),
        c.ok(b, s),
    ensures
        forall|o: int| #[trigger]
            listed(old_after(b, s), o) <==> listed(b.old, o) || listed(s.tenured, o),
        forall|o: int| #[trigger] listed(old_after(b, s), o) ==> c.stands(b, o),
        forall|o: int| #[trigger] c.stands(b, o) ==> listed(c.spare, o) || listed(
            old_after(b, s),
            o,
        ),
        forall|o: int| #[trigger] listed(c.spare, o) ==> c.stands(b, o),
        tiles(s.heap, old_after(b, s), s.heap.old.base, s.heap.old.top()),
{
    lemma_joined(b.old, s.tenured, Seq::empty());
    assert(b.old + s.tenured + Seq::<usize>::empty() =~= old_after(b, s));
    reveal(Copies::placed);
    reveal(Objects::sound);
    lemma_tiles_joined(
        s.heap,
        b.old,
        s.tenured,
        s.heap.old.base,
        b.heap.old.top(),
        s.heap.old.top(),
    );
}

#[verifier::rlimit(60)]
#[verifier::spinoff_prover]
pub(crate) proof fn lemma_exchanged(b: Objects, v: VmView, sv: Survivors, c: Copies)
    requires
        b.sound(),
        all_copied(b, v, sv, c),
    ensures
        exchanged(b, sv, c),
{
    let s = sv.scav;
    let h = s.heap;
    let f = h.flipped();
    let old = old_after(b, s);
    let list = in_order(sv.suspects, sv.suspects.len() as int);
    let r = f.recheck(list, 0);
    assert(h.wf() && tiles(h, c.spare, h.to.base, h.to.top())) by {
        reveal(Copies::placed);
    }
    lemma_flipped(h);
    lemma_old_after(b, s, c);
    lemma_in_order(sv.suspects, sv.suspects.len() as int);
    assert forall|o: int| #[trigger] c.stands(b, o) implies same_body(h, f, o) && h.whole(o) by {
        lemma_stand_apart(b, s, c, o, o);
        assert forall|i: int| 0 <= i < h.nslots(o) implies #[trigger] f.slot(o, i) == h.slot(o, i)
            by {
            assert(!h.young(o + 8 + 8 * i));
        }
    }
    assert forall|k: int| 0 <= k < old.len() implies same_size(h, f, (#[trigger] old[k]) as int) by {
        assert(listed(old, old[k] as int));
        assert(c.stands(b, old[k] as int));
    }
    assert forall|k: int| 0 <= k < c.spare.len() implies same_size(
        h,
        f,
        (#[trigger] c.spare[k]) as int,
    ) by {
        assert(listed(c.spare, c.spare[k] as int));
        assert(c.stands(b, c.spare[k] as int));
    }
    lemma_tiles_carried(h, f, old, h.old.base, h.old.top());
    lemma_tiles_carried(h, f, c.spare, h.to.base, h.to.top());
    assert forall|k: int| 0 <= k < list.len() implies listed(old, (#[trigger] list[k]) as int) by {
        let o = list[k] as int;
        assert(listed(list, o));
        let i = choose|i: int| 0 <= i < sv.suspects.len() && #[trigger] sv.suspects[i] == o;
        assert(c.stands(b, sv.suspects[i] as int));
        if listed(c.spare, o) {
            lemma_within(h, c.spare, h.to.base, h.to.top(), o);
        }
    }
    lemma_recheck(f, old, h.old.base, h.old.top(), list, 0);
    assert forall|o: int| #[trigger] c.stands(b, o) implies settled_from(h, r, o) by {
        lemma_stand_apart(b, s, c, o, o);
        assert(same_body(h, f, o));
        if listed(old, o) {
            assert(same_body(f, r, o));
            assert forall|i: int| 0 <= i < h.nslots(o) implies #[trigger] r.slot(o, i) == h.slot(
                o,
                i,
            ) by {
                assert(f.slot(o, i) == h.slot(o, i));
                assert(r.slot(o, i) == f.slot(o, i));
            }
        } else {
            lemma_spare_unchanged(h, f, r, c.spare, old, o);
        }
    }
    assert forall|k: int| 0 <= k < old.len() implies same_size(f, r, (#[trigger] old[k]) as int) by {
        assert(listed(old, old[k] as int));
        assert(same_body(f, r, old[k] as int));
    }
    lemma_tiles_kept(f, r, old, h.old.base, h.old.top());
    assert forall|k: int| 0 <= k < c.spare.len() implies same_size(
        f,
        r,
        (#[trigger] c.spare[k]) as int,
    ) by {
        let o = c.spare[k] as int;
        assert(listed(c.spare, o));
        assert(c.stands(b, o));
        lemma_within(h, c.spare, h.to.base, h.to.top(), o);
        lemma_spare_sizes(h, f, r, old, o);
    }
    lemma_tiles_kept(f, r, c.spare, h.to.base, h.to.top());
    assert forall|k: int| 0 <= k < r.ssb.len() implies listed(old, (#[trigger] r.ssb[k]) as int) by {
        let o = r.ssb[k] as int;
        assert(listed(r.ssb, o));
        assert(!listed(f.ssb, o));
        assert(listed(list, o));
        let j = choose|j: int| 0 <= j < list.len() && #[trigger] list[j] == o;
        assert(listed(old, list[j] as int));
    }
    assert forall|o: int| #[trigger] listed(sv.suspects, o) && r.points_young(o) implies listed(
        r.ssb,
        o,
    ) by {
        assert(listed(list, o));
        let j = choose|j: int| 0 <= j < list.len() && #[trigger] list[j] == o;
        assert(listed(old, list[j] as int));
        assert(same_body(f, r, o));
        lemma_body_young(f, r, o);
        assert(f.points_young(list[j] as int));
    }
    assert forall|x: int| #[trigger] r.plausible(x) == h.plausible(x) by {
        assert(f.plausible(x) == h.plausible(x));
    }
    assert forall|x: int| h.plausible(x) implies #[trigger] r.limit_of(x) == h.limit_of(x) by {
        assert(f.limit_of(x) == h.limit_of(x));
    }
    assert forall|x: int| #[trigger]
        h.plausible(x) implies (r.young(x) <==> !h.young(x) && !h.tenured(x)) by {
        assert(f.young(x) == r.young(x));
    }
    assert forall|x: int| #[trigger] r.tenured(x) == h.tenured(x) by {
        assert(f.tenured(x) == h.tenured(x));
    }
}

/// Rebuilding the remembered set leaves the words of young space alone.
proof fn lemma_spare_sizes(h: HeapView, f: HeapView, r: HeapView, old: Seq<usize>, o: int)
    requires
        h.wf(),
        h.whole(o),
        h.layout().spare(o),
        h.layout().spare(h.storage_start(o)),
        same_size(h, f, o),
        same_extent(h, f),
        tiles(h, old, h.old.base, h.old.top()),
        forall|x: int| f.plausible(x) && !listed(old, x) ==> #[trigger] r.read(x) == f.read(x),
    ensures
        same_size(f, r, o),
        r.read(o) == f.read(o),
{
    if listed(old, o) {
        lemma_within(h, old, h.old.base, h.old.top(), o);
    }
    assert(f.plausible(o) == h.plausible(o));
    if h.has_over(o) {
        assert(f.plausible(o - 8) == h.plausible(o - 8));
        if listed(old, o - 8) {
            lemma_within(h, old, h.old.base, h.old.top(), o - 8);
        }
    }
}

proof fn lemma_spare_unchanged(
    h: HeapView,
    f: HeapView,
    r: HeapView,
    spare: Seq<usize>,
    old: Seq<usize>,
    o: int,
)
    requires
        h.wf(),
        tiles(h, spare, h.to.base, h.to.top()),
        listed(spare, o),
        same_body(h, f, o),
        same_extent(h, f),
        tiles(h, old, h.old.base, h.old.top()),
        forall|x: int| f.plausible(x) && !listed(old, x) ==> #[trigger] r.read(x) == f.read(x),
    ensures
        settled_from(h, r, o),
{
    lemma_within(h, spare, h.to.base, h.to.top(), o);
    lemma_spare_sizes(h, f, r, old, o);
    assert forall|i: int| 0 <= i < h.nslots(o) implies #[trigger] r.slot(o, i) == h.slot(o, i) by {
        let x = o + 8 + 8 * i;
        assert(h.plausible(x) && h.layout().spare(x));
        assert(f.plausible(x) == h.plausible(x));
        if listed(old, x) {
            lemma_within(h, old, h.old.base, h.old.top(), x);
        }
        assert(f.slot(o, i) == h.slot(o, i));
    }
}

/// A kept object is carried over.
#[verifier::rlimit(60)]
proof fn lemma_carried(b: Objects, v: VmView, sv: Survivors, c: Copies, a: int)
    requires
        b.sound(),
        all_copied(b, v, sv, c),
        exchanged(b, sv, c),
        places(b, sv.scav.heap).dom().contains(a),
    ensures
        carried(
            b.heap,
            a,
            heap_after(sv),
            places(b, sv.scav.heap)[a],
            places(b, sv.scav.heap),
        ),
{
    let s = sv.scav;
    let h = s.heap;
    let r = heap_after(sv);
    let m = places(b, h);
    let n = m[a];
    lemma_place(b, s, c, a);
    assert(alike(b.heap, a, h, n, false)) by {
        reveal(Copies::matching);
        assert(alike(b.heap, c.origin(n), h, n, c.open.contains(n)));
    }
    lemma_alike_size(b.heap, a, h, n, false);
    assert(settled_from(h, r, n));
    lemma_stand_apart(b, s, c, n, n);
    assert(r.whole(n)) by {
        assert(r.plausible(n) == h.plausible(n));
        assert(r.plausible(n - 8) == h.plausible(n - 8));
        assert(r.limit_of(n) == h.limit_of(n));
    }
    assert forall|i: int| 0 <= i < b.heap.nslots(a) implies if b.heap.hdr(a).byte_format() {
        #[trigger] r.slot(n, i) == b.heap.slot(a, i)
    } else {
        follows(b.heap, m, b.heap.slot(a, i), r.slot(n, i))
    } by {
        assert(r.slot(n, i) == h.slot(n, i));
        assert(slot_ok(
            b.heap.hdr(a).byte_format(),
            h,
            b.heap.slot(a, i),
            h.slot(n, i),
            false,
        ));
        if !b.heap.hdr(a).byte_format() {
            assert(b.known(b.heap.slot(a, i))) by {
                reveal(Objects::sound);
            }
            lemma_image_follows(b, s, c, b.heap.slot(a, i), h.slot(n, i));
        }
    }
}

/// What leads somewhere after a scavenge leads to an object.
proof fn lemma_image_known(b: Objects, sv: Survivors, c: Copies, v: Value, w: Value)
    requires
        b.sound(),
        c.ok(b, sv.scav),
        exchanged(b, sv, c),
        b.known(v),
        is_image(sv.scav.heap, v, w),
    ensures
        (Objects { heap: heap_after(sv), young: c.spare, old: old_after(b, sv.scav), live: Set::full() }).known(w),
{
    let s = sv.scav;
    let r = heap_after(sv);
    assert(s.heap.layout() == b.heap.layout()) by {
        reveal(Copies::placed);
    }
    crate::value::lemma_untag_bits(v);
    if w.tagged_ptr() && r.plausible(w.addr()) {
        assert(s.heap.plausible(w.addr()));
        lemma_old_after(b, s, c);
        assert(v.tagged_ptr() && b.heap.plausible(v.addr()));
        lemma_image_stands(b, s, c, v, w);
    }
}

/// The heap that a scavenge leaves is sound.
#[verifier::rlimit(60)]
proof fn lemma_sound_after(b: Objects, v: VmView, sv: Survivors, c: Copies)
    requires
        b.sound(),
        all_copied(b, v, sv, c),
        exchanged(b, sv, c),
    ensures
        (Objects { heap: heap_after(sv), young: c.spare, old: old_after(b, sv.scav), live: Set::full() }).sound(),
{
    let s = sv.scav;
    let h = s.heap;
    let r = heap_after(sv);
    let b1 = Objects { heap: r, young: c.spare, old: old_after(b, s), live: Set::full() };
    lemma_old_after(b, s, c);
    assert forall|n: int| #[trigger] b1.lists(n) implies r.read(n) & 1 == 0 && headed(r, n) by {
        assert(c.stands(b, n));
        assert(settled_from(h, r, n));
        let a = c.origin(n);
        assert(alike(b.heap, a, h, n, c.open.contains(n))) by {
            reveal(Copies::matching);
        }
        assert(b.lists(a)) by {
            reveal(Copies::placed);
        }
        assert(headed(b.heap, a)) by {
            reveal(Objects::sound);
        }
    }
    assert forall|n: int, i: int|
        b1.has(n) && !r.hdr(n).byte_format() && 0 <= i < r.nslots(n) implies b1.known(
        #[trigger] r.slot(n, i),
    ) by {
        assert(c.stands(b, n));
        assert(settled_from(h, r, n));
        let a = c.origin(n);
        assert(alike(b.heap, a, h, n, false)) by {
            reveal(Copies::matching);
            assert(alike(b.heap, c.origin(n), h, n, c.open.contains(n)));
        }
        lemma_alike_size(b.heap, a, h, n, false);
        assert(r.slot(n, i) == h.slot(n, i));
        assert(slot_ok(b.heap.hdr(a).byte_format(), h, b.heap.slot(a, i), h.slot(n, i), false));
        lemma_slot_known(b, s, c, n, i);
        lemma_image_known(b, sv, c, b.heap.slot(a, i), h.slot(n, i));
    }
    reveal(Objects::sound);
}

/// Every old object that points young after a scavenge is remembered.
#[verifier::rlimit(60)]
pub(crate) proof fn lemma_remembered_after(b: Objects, v: VmView, sv: Survivors, c: Copies, o: int, i: int)
    requires
        b.sound(),
        b.heap == v.heap,
        all_copied(b, v, sv, c),
        exchanged(b, sv, c),
        forall|o: int, i: int|
            listed(b.old, o) && !b.heap.hdr(o).byte_format() && 0 <= i < b.heap.nslots(o) && (
            #[trigger] b.heap.slot(o, i)).tagged_ptr() && b.heap.young(b.heap.slot(o, i).addr())
                ==> listed(b.heap.ssb, o) || v.running_stack() == Some(o),
        listed(old_after(b, sv.scav), o),
        !heap_after(sv).hdr(o).byte_format(),
        0 <= i < heap_after(sv).nslots(o),
        heap_after(sv).slot(o, i).tagged_ptr(),
        heap_after(sv).young(heap_after(sv).slot(o, i).addr()),
    ensures
        listed(heap_after(sv).ssb, o),
{
    let s = sv.scav;
    let h = s.heap;
    let r = heap_after(sv);
    lemma_old_after(b, s, c);
    assert(c.stands(b, o));
    assert(settled_from(h, r, o));
    lemma_within(r, old_after(b, s), r.old.base, r.old.top(), o);
    assert(r.slot(o, i) == h.slot(o, i));
    assert(r.points_young(o));
    if !listed(s.tenured, o) {
        assert(listed(b.old, o));
        lemma_old_no_copy(b, s, c, o);
        assert(alike(b.heap, o, h, o, false)) by {
            reveal(Copies::matching);
            assert(alike(b.heap, c.origin(o), h, o, c.open.contains(o)));
        }
        lemma_alike_size(b.heap, o, h, o, false);
        let v0 = b.heap.slot(o, i);
        let w = h.slot(o, i);
        assert(slot_ok(b.heap.hdr(o).byte_format(), h, v0, w, false));
        assert(b.known(v0)) by {
            reveal(Objects::sound);
            assert(b.has(o));
        }
        assert(h.layout() == b.heap.layout()) by {
            reveal(Copies::placed);
        }
        crate::value::lemma_untag_bits(w);
        assert(r.plausible(w.addr()));
        assert(h.plausible(w.addr()));
        assert(!h.tenured(w.addr()) && !h.young(w.addr()));
        if !(v0.tagged_ptr() && h.young(v0.addr())) {
            assert(w == v0);
            if listed(b.old, w.addr()) {
                lemma_old_tenured(b, w.addr());
            } else {
                lemma_young_listed(b, w.addr());
            }
        }
        assert(listed(sv.suspects, o));
    }
}

/// A boundary of the machine changes nothing that a collection looks at.
pub(crate) proof fn lemma_boundary(v: VmView, pseudo: Seq<char>)
    ensures
        v.boundary(pseudo).heap == v.heap,
        v.boundary(pseudo).roots() == v.roots(),
        v.boundary(pseudo).specials == v.specials,
        v.boundary(pseudo).active == v.active,
{
    reveal(VmView::sample_taken);
}

/// A scavenge keeps the object graph: all that the machine's references
/// reach is carried over with its class, identity hash, format, size and
/// contents, links lead where they led, no two objects become one, no old
/// object moves, no young object is kept that neither the machine's
/// references nor the old objects reach, and the machine is sound again.
#[verifier::rlimit(60)]
#[verifier::spinoff_prover]
pub proof fn law_scavenge_keeps_graph(v: VmView, young: Seq<usize>, old: Seq<usize>, live: Set<int>)
    requires
        v.sound(young, old, live),
    ensures
        v.scavenged() matches Ok(w) ==> exists|
            m: Map<int, int>,
            young1: Seq<usize>,
            old1: Seq<usize>,
        | scavenge_keeps(v, old, w, m, young1, old1),
        v.scavenged() matches Ok(w) ==> w.specials.len() == v.specials.len()
            && w.class_table.len() == v.class_table.len() && w.temp_roots.len()
            == v.temp_roots.len(),
{
    reveal(VmView::scavenged);
    let v0 = v.boundary("<vm:scavenge>"@);
    lemma_boundary(v, "<vm:scavenge>"@);
    let v1 = VmView { scavenges: v0.scavenges.wrapping_add(1), ..v0.collection_begun() };
    assert(v1.roots() =~= v.roots());
    let b = v.objects(young, old, live);
    assert(v1.sound(young, old, live)) by {
        reveal(VmView::sound);
        assert(v1.objects(young, old, live) == b);
        assert(v1.running_stack() == v.running_stack());
    }
    let c = lemma_survivors(v1, young, old, live);
    if let Some(sv) = v1.survivors() {
        let w = v.scavenged()->Ok_0;
        let m = places(b, sv.scav.heap);
        let r = heap_after(sv);
        assert(b.sound()) by {
            reveal(VmView::sound);
        }
        lemma_exchanged(b, v1, sv, c);
        lemma_with_roots(v1, sv.roots);
        assert(w.roots() =~= sv.roots);
        assert(w.heap == r);
        assert(same_graph(v, w, m)) by {
            assert(v.heap.wf()) by {
                reveal(Objects::sound);
            }
            assert(sv.scav.heap.layout() == v.heap.layout()) by {
                reveal(Copies::placed);
            }
            assert forall|x: int| #[trigger] w.heap.plausible(x) == v.heap.plausible(x) by {
                assert(r.plausible(x) == sv.scav.heap.plausible(x));
            }
            assert forall|i: int| 0 <= i < v.roots().len() implies follows(
                v.heap,
                m,
                v.roots()[i],
                #[trigger] w.roots()[i],
            ) by {
                reveal(VmView::sound);
                assert(b.known(v.roots()[i]));
                assert(is_image(sv.scav.heap, v1.roots()[i], sv.roots[i]));
                lemma_image_follows(b, sv.scav, c, v.roots()[i], sv.roots[i]);
            }
            assert forall|a: int| #[trigger] m.dom().contains(a) implies carried(
                v.heap,
                a,
                w.heap,
                m[a],
                m,
            ) by {
                lemma_carried(b, v1, sv, c, a);
            }
            assert forall|a1: int, a2: int|
                m.dom().contains(a1) && m.dom().contains(a2) && #[trigger] m[a1]
                    == #[trigger] m[a2] implies a1 == a2 by {
                lemma_place(b, sv.scav, c, a1);
                lemma_place(b, sv.scav, c, a2);
            }
        }
        lemma_machine_sound(b, v1, sv, c, w);
        assert(unmoved(old, m)) by {
            assert forall|i: int| 0 <= i < old.len() implies m.dom().contains(
                #[trigger] old[i] as int,
            ) && m[old[i] as int] == old[i] by {
                assert(listed(b.old, old[i] as int));
            }
        }
        assert(old.is_prefix_of(old_after(b, sv.scav)));
        lemma_images(b, sv.scav, c);
        assert forall|s: Set<int>| #[trigger]
            holds_reached(v, s) && holds_all(old, s) implies m.dom().subset_of(s) by {
            lemma_only_reached(v1, young, old, live, s);
        }
        if flagged(v.heap, old) {
            assert(forall|o: int, i: int|
                listed(b.old, o) && !b.heap.hdr(o).byte_format() && 0 <= i < b.heap.nslots(o) && (
                #[trigger] b.heap.slot(o, i)).tagged_ptr() && b.heap.young(b.heap.slot(o, i).addr())
                    ==> listed(b.heap.ssb, o) || v1.running_stack() == Some(o)) by {
                reveal(VmView::sound);
            }
            lemma_remembers(b, v1, sv, c);
        }
        assert(sv.scav.heap.layout() == v.heap.layout()) by {
            reveal(Copies::placed);
        }
        assert(scavenge_keeps(v, old, w, m, c.spare, old_after(b, sv.scav)));
    }
}

/// A machine is sound with only those young objects counted that a set holds
/// which holds all that is reached.
proof fn lemma_sound_within(
    v: VmView,
    young: Seq<usize>,
    old: Seq<usize>,
    live: Set<int>,
    s: Set<int>,
)
    requires
        v.sound(young, old, live),
        holds_reached(v, s),
        holds_all(old, s),
    ensures
        v.sound(young, old, live.intersect(s)),
{
    reveal(VmView::sound);
    let b = v.objects(young, old, live);
    let b1 = v.objects(young, old, live.intersect(s));
    assert(b1.sound()) by {
        reveal(Objects::sound);
        assert forall|a: int| #[trigger] b1.lists(a) implies b.lists(a) by {}
        assert forall|a: int, i: int|
            b1.has(a) && !v.heap.hdr(a).byte_format() && 0 <= i < v.heap.nslots(a) implies b1.known(
            #[trigger] v.heap.slot(a, i),
        ) by {
            assert(b.has(a) && s.contains(a));
            assert(b.known(v.heap.slot(a, i)));
            assert(leads_in(v.heap, v.heap.slot(a, i), s));
        }
    }
    assert forall|i: int| 0 <= i < v.roots().len() implies b1.known(#[trigger] v.roots()[i]) by {
        assert(b.known(v.roots()[i]));
        assert(leads_in(v.heap, v.roots()[i], s));
    }
}

/// What a scavenge keeps lies in every set that holds the old objects and
/// all that is reached.
proof fn lemma_only_reached(
    v: VmView,
    young: Seq<usize>,
    old: Seq<usize>,
    live: Set<int>,
    s: Set<int>,
)
    requires
        v.sound(young, old, live),
        holds_reached(v, s),
        holds_all(old, s),
    ensures
        v.survivors() matches Some(sv) ==> places(
            v.objects(young, old, live),
            sv.scav.heap,
        ).dom().subset_of(s),
{
    let b = v.objects(young, old, live);
    let b1 = v.objects(young, old, live.intersect(s));
    lemma_sound_within(v, young, old, live, s);
    let c = lemma_survivors(v, young, old, live.intersect(s));
    if let Some(sv) = v.survivors() {
        assert(b1.sound()) by {
            reveal(VmView::sound);
        }
        assert forall|a: int| #[trigger]
            places(b, sv.scav.heap).dom().contains(a) implies s.contains(a) by {
            assert(places(b1, sv.scav.heap).dom().contains(a));
            lemma_place(b1, sv.scav, c, a);
        }
    }
}

/// The copies and the old objects are just where objects were moved to.
#[verifier::rlimit(60)]
proof fn lemma_images(b: Objects, s: ScavView, c: Copies)
    requires
        b.sound(),
        c.ok(b, s),
    ensures
        came_from(places(b, s.heap), c.spare),
        came_from(places(b, s.heap), old_after(b, s)),
        lands_in(places(b, s.heap), c.spare, old_after(b, s)),
{
    let m = places(b, s.heap);
    lemma_old_after(b, s, c);
    assert forall|n: int| #[trigger] c.stands(b, n) implies m.dom().contains(c.origin(n))
        && m[c.origin(n)] == n by {
        if listed(b.old, n) {
            lemma_old_no_copy(b, s, c, n);
        } else {
            let a = c.source[n];
            assert(b.alive(a)) by {
                reveal(Copies::placed);
            }
            assert(s.heap.read(a) == (n as u64) | 1 && n % 8 == 0 && 0 <= n <= u64::MAX) by {
                reveal(Copies::forwarding);
            }
            crate::graph::lemma_forward_bits(n as u64, 0, 0);
            assert(listed(b.young, a));
            lemma_young_listed(b, a);
            if listed(b.old, a) {
                lemma_old_tenured(b, a);
            }
        }
    }
    assert forall|n: int| #[trigger] listed(c.spare, n) implies exists|a: int| #[trigger]
        m.dom().contains(a) && m[a] == n by {
        assert(c.stands(b, n));
        assert(m.dom().contains(c.origin(n)));
    }
    assert forall|n: int| #[trigger] listed(old_after(b, s), n) implies exists|a: int| #[trigger]
        m.dom().contains(a) && m[a] == n by {
        assert(c.stands(b, n));
        assert(m.dom().contains(c.origin(n)));
    }
    assert forall|a: int| #[trigger] m.dom().contains(a) implies listed(c.spare, m[a]) || listed(
        old_after(b, s),
        m[a],
    ) by {
        lemma_place(b, s, c, a);
        assert(c.stands(b, m[a]));
    }
}

#[verifier::rlimit(60)]
#[verifier::spinoff_prover]
pub(crate) proof fn lemma_machine_sound(b: Objects, v: VmView, sv: Survivors, c: Copies, w: VmView)
    requires
        v.sound(b.young, b.old, b.live),
        b == v.objects(b.young, b.old, b.live),
        b.sound(),
        all_copied(b, v, sv, c),
        exchanged(b, sv, c),
        w.heap == heap_after(sv),
        w.roots() == sv.roots,
        w.specials.len() == v.specials.len(),
        w.active == sv.roots[sv.roots.len() - 1],
    ensures
        w.sound(c.spare, old_after(b, sv.scav), Set::full()),
{
    let r = w.heap;
    let s = sv.scav;
    let b1 = w.objects(c.spare, old_after(b, s), Set::full());
    lemma_sound_after(b, v, sv, c);
    reveal(VmView::sound);
    assert forall|i: int| 0 <= i < w.roots().len() implies b1.known(#[trigger] w.roots()[i]) by {
        assert(b.known(v.roots()[i]));
        assert(is_image(s.heap, v.roots()[i], sv.roots[i]));
        lemma_image_known(b, sv, c, v.roots()[i], sv.roots[i]);
    }
    let last = v.roots().len() - 1;
    assert(v.active == v.roots()[last]);
    assert(is_image(s.heap, v.roots()[last], sv.roots[last]));
    if w.active.tagged_ptr() && r.plausible(w.active.addr()) {
        assert(s.heap.plausible(w.active.addr()));
        assert(s.heap.layout() == b.heap.layout()) by {
            reveal(Copies::placed);
        }
        crate::value::lemma_untag_bits(v.active);
        lemma_image_stands(b, s, c, v.active, w.active);
        let n = w.active.addr();
        assert(settled_from(s.heap, r, n));
        reveal(Copies::matching);
        assert(alike(b.heap, c.origin(n), s.heap, n, c.open.contains(n)));
    }
    assert forall|o: int, i: int|
        listed(b1.old, o) && !r.hdr(o).byte_format() && 0 <= i < r.nslots(o) && (
        #[trigger] r.slot(o, i)).tagged_ptr() && r.young(r.slot(o, i).addr()) implies listed(
        r.ssb,
        o,
    ) || w.running_stack() == Some(o) by {
        lemma_remembered_after(b, v, sv, c, o, i);
    }
}

/// Moved twice is moved.
#[verifier::rlimit(60)]
pub(crate) proof fn lemma_same_graph_twice(
    u: VmView,
    v: VmView,
    w: VmView,
    m: Map<int, int>,
    n: Map<int, int>,
)
    requires
        same_graph(u, v, m),
        same_graph(v, w, n),
    ensures
        same_graph(u, w, moved_twice(m, n)),
{
    let p = moved_twice(m, n);
    assert forall|x: int| #[trigger] w.heap.plausible(x) == u.heap.plausible(x) by {
        assert(v.heap.plausible(x) == u.heap.plausible(x));
    }
    assert forall|i: int| 0 <= i < u.roots().len() implies follows(
        u.heap,
        p,
        u.roots()[i],
        #[trigger] w.roots()[i],
    ) by {
        assert(follows(u.heap, m, u.roots()[i], v.roots()[i]));
        assert(follows(v.heap, n, v.roots()[i], w.roots()[i]));
        lemma_follows_twice(u, v, w, m, n, u.roots()[i], v.roots()[i], w.roots()[i]);
    }
    assert forall|a: int| #[trigger] p.dom().contains(a) implies carried(u.heap, a, w.heap, p[a], p)
        by {
        let c = m[a];
        assert(carried(u.heap, a, v.heap, c, m));
        assert(carried(v.heap, c, w.heap, n[c], n));
        assert forall|i: int| 0 <= i < u.heap.nslots(a) implies if u.heap.hdr(a).byte_format() {
            #[trigger] w.heap.slot(p[a], i) == u.heap.slot(a, i)
        } else {
            follows(u.heap, p, u.heap.slot(a, i), w.heap.slot(p[a], i))
        } by {
            let x = u.heap.slot(a, i);
            let y = v.heap.slot(c, i);
            let z = w.heap.slot(n[c], i);
            if !u.heap.hdr(a).byte_format() {
                assert(follows(u.heap, m, x, y));
                assert(follows(v.heap, n, y, z));
                lemma_follows_twice(u, v, w, m, n, x, y, z);
            } else {
                assert(y == x);
                assert(z == y);
            }
        }
    }
    assert forall|a: int, b: int|
        p.dom().contains(a) && p.dom().contains(b) && #[trigger] p[a]
            == #[trigger] p[b] implies a == b by {
        assert(n[m[a]] == n[m[b]]);
        assert(m[a] == m[b]);
    }
}

/// Two moves, one after the other.
pub open spec fn moved_twice(m: Map<int, int>, n: Map<int, int>) -> Map<int, int> {
    Map::new(|a: int| m.dom().contains(a) && n.dom().contains(m[a]), |a: int| n[m[a]])
}

proof fn lemma_follows_twice(
    u: VmView,
    v: VmView,
    w: VmView,
    m: Map<int, int>,
    n: Map<int, int>,
    x: Value,
    y: Value,
    z: Value,
)
    requires
        same_graph(u, v, m),
        follows(u.heap, m, x, y),
        follows(v.heap, n, y, z),
    ensures
        follows(u.heap, moved_twice(m, n), x, z),
{
    crate::value::lemma_untag_bits(y);
    assert(v.heap.plausible(x.addr()) == u.heap.plausible(x.addr()));
    if x.tagged_ptr() && u.heap.plausible(x.addr()) {
        let c = m[x.addr()];
        assert(carried(u.heap, x.addr(), v.heap, c, m));
        assert(v.heap.whole(c));
        assert(y.addr() == c);
    }
}

} // verus!
