//! A collection of a sound machine succeeds.
//!
//! The spare space is as large as young space, so that all copies fit; what
//! is reached is whole, so that nothing stops the copying, the marking or
//! the sliding.

use crate::graph::{
    alike, fin, is_image, lemma_alike_size, lemma_evacuated, lemma_forward_all_keeps,
    lemma_forward_bits, lemma_forward_keeps, lemma_image_stands, lemma_scan_all_keeps,
    lemma_scan_keeps, lemma_slot_known, lemma_stand_apart, lemma_store_keeps, lemma_uncopied,
    lemma_young_is_young, lemma_young_listed, listed, Copies, Objects,
};
use crate::heap::HeapView;
use crate::scavenge::ScavView;
use crate::sliding::{lemma_compacted, lemma_marked_heap};
use crate::survival::{
    beginning, carried, follows, law_scavenge_keeps_graph, lemma_beginning, lemma_boundary,
    lemma_ssb_aside, lemma_stack_keeps, lemma_with_roots, same_graph, scavenge_keeps,
};
use crate::treaty::{
    PROCESS_STACK, SPECIAL_NIL,
};
use crate::value::Value;
use crate::vm::VmView;
use vstd::prelude::*;

verus! {

/// The bytes of the young objects before the `n`th that have no copy yet.
pub open spec fn waiting(b: Objects, h: HeapView, n: int) -> int
    decreases n,
{
    if n <= 0 {
        0
    } else {
        let o = b.young[n - 1] as int;
        waiting(b, h, n - 1) + if h.read(o) & 1 == 0 {
            fin(b.heap, o) - b.heap.storage_start(o)
        } else {
            0
        }
    }
}

/// What has been copied to the spare space and what may still be copied is
/// no more than young space holds.
#[verifier::opaque]
pub open spec fn roomy(b: Objects, h: HeapView) -> bool {
    h.to.top() - h.to.base + waiting(b, h, b.young.len() as int) <= b.heap.from.top()
        - b.heap.from.base
}

/// The spare space can take all that young space holds.
pub open spec fn spare(h: HeapView) -> bool {
    h.from.alloc <= h.to.mem.len()
}

proof fn lemma_waiting_same(b: Objects, h: HeapView, h1: HeapView, n: int)
    requires
        n <= b.young.len(),
        forall|o: int| #[trigger] listed(b.young, o) ==> h1.read(o) & 1 == h.read(o) & 1,
    ensures
        waiting(b, h1, n) == waiting(b, h, n),
    decreases n,
{
    if n > 0 {
        assert(listed(b.young, b.young[n - 1] as int));
        lemma_waiting_same(b, h, h1, n - 1);
    }
}

/// An object that gets a copy no longer waits.
#[verifier::rlimit(60)]
proof fn lemma_waiting_less(b: Objects, h: HeapView, h1: HeapView, n: int, k: int)
    requires
        b.sound(),
        0 <= n <= b.young.len(),
        0 <= k < b.young.len(),
        h.read(b.young[k] as int) & 1 == 0,
        h1.read(b.young[k] as int) & 1 == 1,
        forall|o: int| #[trigger]
            listed(b.young, o) && o != b.young[k] ==> h1.read(o) & 1 == h.read(o) & 1,
    ensures
        waiting(b, h1, n) == waiting(b, h, n) - if k < n {
            fin(b.heap, b.young[k] as int) - b.heap.storage_start(b.young[k] as int)
        } else {
            0
        },
    decreases n,
{
    if n > 0 {
        lemma_waiting_less(b, h, h1, n - 1, k);
        let o = b.young[n - 1] as int;
        assert(listed(b.young, b.young[n - 1] as int));
        if k != n - 1 {
            assert(o != b.young[k]) by {
                reveal(Objects::sound);
                if k < n - 1 {
                    assert(fin(b.heap, b.young[k] as int) <= b.heap.storage_start(
                        b.young[n - 1] as int,
                    ));
                } else {
                    assert(fin(b.heap, b.young[n - 1] as int) <= b.heap.storage_start(
                        b.young[k] as int,
                    ));
                }
            }
        }
    }
}

/// Nothing waits less than nothing, and an object without a copy waits.
proof fn lemma_waiting_has(b: Objects, h: HeapView, n: int, k: int)
    requires
        b.sound(),
        0 <= n <= b.young.len(),
        0 <= k < b.young.len(),
        h.read(b.young[k] as int) & 1 == 0,
    ensures
        waiting(b, h, n) >= if k < n {
            fin(b.heap, b.young[k] as int) - b.heap.storage_start(b.young[k] as int)
        } else {
            0
        },
    decreases n,
{
    if n > 0 {
        lemma_waiting_has(b, h, n - 1, k);
    }
}

/// At first all of young space waits.
proof fn lemma_waiting_first(b: Objects, n: int)
    requires
        b.sound(),
        0 <= n <= b.young.len(),
    ensures
        waiting(b, b.heap, n) == if n == 0 {
            0
        } else {
            fin(b.heap, b.young[n - 1] as int) - b.heap.from.base
        },
    decreases n,
{
    if n > 0 {
        lemma_waiting_first(b, n - 1);
        assert(listed(b.young, b.young[n - 1] as int));
        lemma_young_listed(b, b.young[n - 1] as int);
        reveal(Objects::sound);
        if n > 1 {
            assert(fin(b.heap, b.young[n - 2] as int) == b.heap.storage_start(
                b.young[n - 1] as int,
            ));
        }
    }
}

proof fn lemma_roomy_first(b: Objects)
    requires
        b.sound(),
    ensures
        roomy(b, b.heap),
{
    reveal(roomy);
    reveal(Objects::sound);
    lemma_waiting_first(b, b.young.len() as int);
}

/// Stores outside of young space take no room.
proof fn lemma_roomy_same(b: Objects, h: HeapView, h1: HeapView)
    requires
        roomy(b, h),
        h1.to.base == h.to.base,
        h1.to.alloc == h.to.alloc,
        forall|o: int| #[trigger] listed(b.young, o) ==> h1.read(o) == h.read(o),
    ensures
        roomy(b, h1),
{
    reveal(roomy);
    lemma_waiting_same(b, h, h1, b.young.len() as int);
}

/// Forwarding a value of a sound heap succeeds.
#[verifier::rlimit(60)]
proof fn lemma_forward_works(b: Objects, s: ScavView, c: Copies, v: Value, threshold: u64)
    requires
        b.sound(),
        c.ok(b, s),
        v.tagged_ptr() && s.heap.young(v.addr()) ==> b.alive(v.addr()),
        spare(b.heap),
        roomy(b, s.heap),
    ensures
        s.forward(v, threshold) matches Some((s1, f)) && roomy(b, s1.heap),
{
    reveal(ScavView::forward);
    let h = s.heap;
    let a = v.addr();
    crate::value::lemma_untag_bits(v);
    if v.tagged_ptr() && h.young(a) {
        lemma_young_listed(b, a);
        assert(h.wf() && h.layout() == b.heap.layout() && h.from.alloc == b.heap.from.alloc) by {
            reveal(Copies::placed);
        }
        let w = h.read(a);
        if w & 1 == 1 {
            assert(listed(b.young, a));
            assert(w != b.heap.read(a));
            let n = (w & !1u64) as int;
            assert(c.source.dom().contains(n) && n % 8 == 0) by {
                reveal(Copies::forwarding);
                assert(c.source.dom().contains((h.read(a) & !1u64) as int));
            }
            crate::value::lemma_untag_bits(Value(w & !1u64));
        } else {
            assert(w == b.heap.read(a)) by {
                reveal(Copies::forwarding);
                assert(listed(b.young, a));
            }
            lemma_uncopied(b, s, c, a);
            assert(h.copyable(a));
            lemma_room_for(b, s, c, a, threshold);
            lemma_evacuated(s, a, threshold);
            let (s1, n) = s.evacuate(a, threshold)->0;
            lemma_roomy_copied(b, s, c, s1, a, n);
        }
    }
}

/// There is room for the copy of an object.
proof fn lemma_room_for(b: Objects, s: ScavView, c: Copies, a: int, threshold: u64)
    requires
        b.sound(),
        c.ok(b, s),
        listed(b.young, a),
        s.heap.read(a) == b.heap.read(a),
        s.heap.copyable(a),
        s.heap.layout() == b.heap.layout(),
        s.heap.from.alloc == b.heap.from.alloc,
        spare(b.heap),
        roomy(b, s.heap),
    ensures
        s.evacuate(a, threshold) is Some,
{
    let h = s.heap;
    lemma_young_listed(b, a);
    lemma_uncopied(b, s, c, a);
    assert(h.wf()) by {
        reveal(Copies::placed);
    }
    crate::graph::lemma_young_words(h, a);
    let k = choose|k: int| 0 <= k < b.young.len() && #[trigger] b.young[k] == a;
    lemma_waiting_has(b, h, b.young.len() as int, k);
    reveal(roomy);
    assert(h.footprint(a) == fin(h, a) - h.storage_start(a));
    let words = h.young_words(a);
    assert(words.len() == h.footprint(a) / 8);
    assert(8 * h.to.alloc + 8 * words.len() <= 8 * h.from.alloc);
}

/// A copy takes the room that its object waited for.
#[verifier::rlimit(60)]
proof fn lemma_roomy_copied(b: Objects, s: ScavView, c: Copies, s1: ScavView, a: int, n: int)
    requires
        b.sound(),
        c.ok(b, s),
        listed(b.young, a),
        s.heap.read(a) == b.heap.read(a),
        s.heap.wf(),
        s.heap.layout() == b.heap.layout(),
        crate::graph::copied_to(s.heap, s1.heap, a, n),
        0 <= n <= usize::MAX,
        roomy(b, s.heap),
    ensures
        roomy(b, s1.heap),
{
    let h = s.heap;
    let h1 = s1.heap;
    lemma_young_listed(b, a);
    lemma_uncopied(b, s, c, a);
    lemma_forward_bits(n as u64, 0, 0);
    let k = choose|k: int| 0 <= k < b.young.len() && #[trigger] b.young[k] == a;
    assert(h.layout() == h1.layout());
    assert forall|o: int| #[trigger] listed(b.young, o) && o != a implies h1.read(o) & 1 == h.read(
        o,
    ) & 1 by {
        lemma_young_listed(b, o);
        assert(h.plausible(o) && h.young(o));
        let lo = h.storage_start(a) - a + n;
        let hi = fin(h, a) - a + n;
        assert(!(lo <= o < hi));
        assert(h1.read(o) == h.read(o));
    }
    lemma_waiting_less(b, h, h1, b.young.len() as int, k);
    reveal(roomy);
}

#[verifier::rlimit(60)]
proof fn lemma_roomy_store(b: Objects, s: ScavView, c: Copies, o: int, i: int, f: Value)
    requires
        b.sound(),
        c.ok(b, s),
        c.stands(b, o),
        0 <= i < b.heap.nslots(c.origin(o)),
        roomy(b, s.heap),
    ensures
        roomy(b, s.heap.set_slot(o, i, f)),
{
    let h = s.heap;
    let a = c.origin(o);
    lemma_stand_apart(b, s, c, o, o);
    assert(alike(b.heap, a, h, o, c.open.contains(o))) by {
        reveal(Copies::matching);
    }
    lemma_alike_size(b.heap, a, h, o, c.open.contains(o));
    assert(h.wf() && h.layout() == b.heap.layout()) by {
        reveal(Copies::placed);
    }
    let x = o + 8 + 8 * i;
    assert(h.plausible(x) && !h.young(x));
    crate::graph::lemma_reads_after_write(h, x, f.0);
    assert forall|y: int| #[trigger] listed(b.young, y) implies h.set_slot(o, i, f).read(y)
        == h.read(y) by {
        lemma_young_listed(b, y);
    }
    lemma_roomy_same(b, h, h.set_slot(o, i, f));
}

/// Forwarding the slots of an object that stands succeeds.
#[verifier::rlimit(60)]
#[verifier::spinoff_prover]
proof fn lemma_scan_slots_works(
    b: Objects,
    s: ScavView,
    c: Copies,
    o: int,
    i: int,
    n: int,
    threshold: u64,
)
    requires
        b.sound(),
        c.ok(b, s),
        c.stands(b, o),
        n == b.heap.nslots(c.origin(o)),
        0 <= i <= n,
        !b.heap.hdr(c.origin(o)).byte_format(),
        spare(b.heap),
        roomy(b, s.heap),
    ensures
        s.scan_slots(o, i, n, threshold) matches Some(s1) && roomy(b, s1.heap),
    decreases n - i,
{
    if i < n {
        let a = c.origin(o);
        let v = s.heap.slot(o, i);
        let v0 = b.heap.slot(a, i);
        lemma_slot_known(b, s, c, o, i);
        lemma_forward_works(b, s, c, v, threshold);
        let c1 = lemma_forward_keeps(b, s, c, v, threshold);
        let (s1, f) = s.forward(v, threshold)->0;
        assert(is_image(s1.heap, v0, f)) by {
            if v != v0 {
                assert(is_image(s.heap, v0, v));
                assert(is_image(s1.heap, v0, v));
                assert(s1.heap.layout() == s.heap.layout()) by {
                    reveal(Copies::placed);
                }
            }
        }
        assert(c1.stands(b, o) && c1.origin(o) == a);
        let s2 = if f != v {
            ScavView { heap: s1.heap.set_slot(o, i, f), ..s1 }
        } else {
            s1
        };
        if f != v {
            lemma_store_keeps(b, s1, c1, o, i, f);
            lemma_roomy_store(b, s1, c1, o, i, f);
        }
        lemma_scan_slots_works(b, s2, c1, o, i + 1, n, threshold);
    }
}

proof fn lemma_scan_works(b: Objects, s: ScavView, c: Copies, o: int, threshold: u64)
    requires
        b.sound(),
        c.ok(b, s),
        c.stands(b, o),
        spare(b.heap),
        roomy(b, s.heap),
    ensures
        s.scan(o, threshold) matches Some(s1) && roomy(b, s1.heap),
{
    let a = c.origin(o);
    lemma_stand_apart(b, s, c, o, o);
    assert(alike(b.heap, a, s.heap, o, c.open.contains(o))) by {
        reveal(Copies::matching);
    }
    lemma_alike_size(b.heap, a, s.heap, o, c.open.contains(o));
    if !s.heap.hdr(o).byte_format() {
        lemma_scan_slots_works(b, s, c, o, 0, s.heap.nslots(o) as int, threshold);
    }
}

proof fn lemma_forward_all_works(
    b: Objects,
    s: ScavView,
    c: Copies,
    list: Seq<Value>,
    i: int,
    threshold: u64,
)
    requires
        b.sound(),
        c.ok(b, s),
        0 <= i,
        forall|k: int| i <= k < list.len() ==> b.known(#[trigger] list[k]),
        spare(b.heap),
        roomy(b, s.heap),
    ensures
        s.forward_all(list, i, threshold) matches Some((s1, out)) && roomy(b, s1.heap),
    decreases list.len() - i,
{
    if i < list.len() {
        let v = list[i];
        assert(s.heap.layout() == b.heap.layout()) by {
            reveal(Copies::placed);
        }
        if v.tagged_ptr() && s.heap.young(v.addr()) {
            lemma_young_is_young(b, v);
        }
        lemma_forward_works(b, s, c, v, threshold);
        let c1 = lemma_forward_keeps(b, s, c, v, threshold);
        let (s1, f) = s.forward(v, threshold)->0;
        lemma_forward_all_works(b, s1, c1, list.update(i, f), i + 1, threshold);
    }
}

proof fn lemma_scan_all_works(
    b: Objects,
    s: ScavView,
    c: Copies,
    list: Seq<usize>,
    i: int,
    threshold: u64,
)
    requires
        b.sound(),
        c.ok(b, s),
        0 <= i,
        forall|k: int| 0 <= k < list.len() ==> listed(b.old, (#[trigger] list[k]) as int),
        spare(b.heap),
        roomy(b, s.heap),
    ensures
        s.scan_all(list, i, threshold) matches Some(s1) && roomy(b, s1.heap),
    decreases list.len() - i,
{
    if i < list.len() {
        let o = list[i] as int;
        assert(listed(b.old, list[i] as int));
        lemma_scan_works(b, s, c, o, threshold);
        let c1 = lemma_scan_keeps(b, s, c, o, threshold);
        let s1 = s.scan(o, threshold)->0;
        lemma_scan_all_works(b, s1, c1, list, i + 1, threshold);
    }
}

#[verifier::rlimit(60)]
proof fn lemma_drain_works(b: Objects, s: ScavView, c: Copies, threshold: u64)
    requires
        b.sound(),
        c.ok(b, s),
        spare(b.heap),
        roomy(b, s.heap),
    ensures
        s.drain(threshold) is Some,
    decreases s.measure(),
{
    assert(s.heap.wf()) by {
        reveal(Copies::placed);
    }
    if s.work.len() > 0 {
        let o = s.work.last() as int;
        let s0 = ScavView { work: s.work.drop_last(), ..s };
        assert(s.work[s.work.len() - 1] == o);
        assert(listed(s.work, o));
        assert forall|p: int| #[trigger] listed(s0.work, p) implies listed(s.work, p) by {
            let k = choose|k: int| 0 <= k < s0.work.len() && #[trigger] s0.work[k] == p;
            assert(s.work[k] == p);
        }
        assert(c.ok(b, s0)) by {
            reveal(Copies::queued);
            reveal(Copies::placed);
        }
        assert(c.stands(b, o)) by {
            reveal(Copies::queued);
        }
        lemma_scan_works(b, s0, c, o, threshold);
        let c1 = lemma_scan_keeps(b, s0, c, o, threshold);
        crate::scavenge::lemma_scan(s0, o, threshold);
        let s1 = s0.scan(o, threshold)->0;
        lemma_drain_works(b, s1, c1, threshold);
    }
}

/// Forwarding and scanning the running stack succeeds.
#[verifier::rlimit(60)]
#[verifier::spinoff_prover]
proof fn lemma_stack_works(
    b: Objects,
    v: VmView,
    s: ScavView,
    c: Copies,
    active: Value,
    nil: Value,
    threshold: u64,
)
    requires
        b.sound(),
        b.heap == v.heap,
        c.ok(b, s),
        b.known(v.active),
        b.known(v.nil()),
        is_image(s.heap, v.active, active),
        is_image(s.heap, v.nil(), nil),
        v.active.tagged_ptr() && b.heap.plausible(v.active.addr()) ==> !b.heap.hdr(
            v.active.addr(),
        ).byte_format(),
        v.runs(),
        spare(b.heap),
        roomy(b, s.heap),
    ensures
        s.stack_scanned(active, nil, threshold) matches Some((s1, stack)) && roomy(b, s1.heap),
{
    assert(s.heap.layout() == b.heap.layout()) by {
        reveal(Copies::placed);
    }
    let av = v.active;
    crate::value::lemma_untag_bits(av);
    if active.tagged_ptr() && active != nil {
        assert(av != v.nil());
        assert(av.tagged_ptr());
        assert(b.heap.shaped(av.addr(), PROCESS_STACK + 1));
        lemma_image_stands(b, s, c, av, active);
        let p = active.addr();
        let a = c.origin(p);
        let i = PROCESS_STACK as int;
        lemma_stand_apart(b, s, c, p, p);
        assert(alike(b.heap, a, s.heap, p, c.open.contains(p))) by {
            reveal(Copies::matching);
        }
        lemma_alike_size(b.heap, a, s.heap, p, c.open.contains(p));
        assert(s.heap.shaped(p, PROCESS_STACK + 1));
        let st = s.heap.slot(p, i);
        let v0 = b.heap.slot(a, i);
        lemma_slot_known(b, s, c, p, i);
        crate::value::lemma_untag_bits(v0);
        crate::value::lemma_untag_bits(st);
        if st.tagged_ptr() && st != nil {
            lemma_forward_works(b, s, c, st, threshold);
            let c1 = lemma_forward_keeps(b, s, c, st, threshold);
            let (s1, f) = s.forward(st, threshold)->0;
            assert(s1.heap.layout() == s.heap.layout()) by {
                reveal(Copies::placed);
            }
            assert(is_image(s1.heap, v0, f)) by {
                if st != v0 {
                    assert(is_image(s.heap, v0, st));
                    assert(is_image(s1.heap, v0, st));
                }
            }
            assert(v0.tagged_ptr());
            assert(b.heap.plausible(v0.addr())) by {
                if v0 == v.nil() {
                    assert(st == v0);
                    assert(s.heap.young(v0.addr()));
                }
            }
            let s2 = if f != st {
                ScavView { heap: s1.heap.set_slot(p, i, f), ..s1 }
            } else {
                s1
            };
            if f != st {
                lemma_store_keeps(b, s1, c1, p, i, f);
                lemma_roomy_store(b, s1, c1, p, i, f);
            }
            assert(is_image(s2.heap, v0, f));
            lemma_image_stands(b, s2, c1, v0, f);
            lemma_scan_works(b, s2, c1, f.addr(), threshold);
        }
    }
}

/// All that is reachable is copied.
#[verifier::rlimit(60)]
#[verifier::spinoff_prover]
proof fn lemma_survivors_work(v: VmView, young: Seq<usize>, old: Seq<usize>, live: Set<int>)
    requires
        v.sound(young, old, live),
        v.runs(),
        spare(v.heap),
    ensures
        v.survivors() is Some,
{
    let b = v.objects(young, old, live);
    let t = v.tenure;
    let c0 = beginning(v, old);
    let s0 = ScavView::start(v.heap);
    lemma_beginning(v, young, old, live);
    assert(forall|i: int| 0 <= i < v.roots().len() ==> b.known(#[trigger] v.roots()[i])) by {
        reveal(VmView::sound);
    }
    lemma_roomy_first(b);
    lemma_forward_all_works(b, s0, c0, v.roots(), 0, t);
    let c1 = lemma_forward_all_keeps(b, s0, c0, v.roots(), 0, t);
    let (s1, roots) = s0.forward_all(v.roots(), 0, t)->0;
    lemma_with_roots(v, roots);
    let w = v.with_roots(roots);
    let last = v.roots().len() - 1;
    assert(v.specials.len() > SPECIAL_NIL) by {
        reveal(VmView::sound);
    }
    assert(v.roots().len() > SPECIAL_NIL);
    assert(is_image(s1.heap, v.roots()[last], roots[last]));
    assert(is_image(s1.heap, v.roots()[SPECIAL_NIL as int], roots[SPECIAL_NIL as int]));
    assert(v.active.tagged_ptr() && v.heap.plausible(v.active.addr()) ==> !v.heap.hdr(
        v.active.addr(),
    ).byte_format()) by {
        reveal(VmView::sound);
    }
    assert(b.known(v.roots()[last]) && b.known(v.roots()[SPECIAL_NIL as int]));
    lemma_stack_works(b, v, s1, c1, w.active, w.nil(), t);
    let c2 = lemma_stack_keeps(b, v, s1, c1, w.active, w.nil(), t);
    let (s2, stack) = s1.stack_scanned(w.active, w.nil(), t)->0;
    let ssb = s2.heap.ssb;
    assert(ssb == v.heap.ssb);
    let s3 = ScavView { heap: HeapView { ssb: Seq::empty(), ..s2.heap }, ..s2 };
    lemma_ssb_aside(b, s2, c2, Seq::empty());
    assert(forall|x: int| #[trigger] s3.heap.read(x) == s2.heap.read(x)) by {
        reveal(HeapView::read);
    }
    lemma_roomy_same(b, s2.heap, s3.heap);
    assert(forall|k: int| 0 <= k < ssb.len() ==> listed(b.old, (#[trigger] ssb[k]) as int)) by {
        reveal(VmView::sound);
    }
    lemma_scan_all_works(b, s3, c2, ssb, 0, t);
    let c4 = lemma_scan_all_keeps(b, s3, c2, ssb, 0, t);
    let s4 = s3.scan_all(ssb, 0, t)->0;
    lemma_drain_works(b, s4, c4, t);
}

/// A scavenge of a sound machine succeeds where the spare space can take all
/// that young space holds, as it can when it is as large.
pub proof fn law_scavenge_succeeds(v: VmView, young: Seq<usize>, old: Seq<usize>, live: Set<int>)
    requires
        v.sound(young, old, live),
        v.runs(),
        spare(v.heap),
    ensures
        v.scavenged() is Ok,
{
    reveal(VmView::scavenged);
    let v0 = v.boundary("<vm:scavenge>"@);
    lemma_boundary(v, "<vm:scavenge>"@);
    let v1 = VmView { scavenges: v0.scavenges.wrapping_add(1), ..v0.collection_begun() };
    assert(v1.roots() =~= v.roots());
    assert(v1.sound(young, old, live)) by {
        reveal(VmView::sound);
        assert(v1.objects(young, old, live) == v.objects(young, old, live));
        assert(v1.running_stack() == v.running_stack());
    }
    lemma_survivors_work(v1, young, old, live);
}

/// An old collection of a sound machine succeeds where the spare space can
/// take all that young space holds.
#[verifier::rlimit(60)]
pub proof fn law_compaction_succeeds(v: VmView, young: Seq<usize>, old: Seq<usize>, live: Set<int>)
    requires
        v.sound(young, old, live),
        v.runs(),
        spare(v.heap),
    ensures
        v.compacted() is Ok,
{
    reveal(VmView::compacted);
    let v0 = v.boundary("<vm:compact>"@);
    lemma_boundary(v, "<vm:compact>"@);
    assert(v0.sound(young, old, live)) by {
        reveal(VmView::sound);
        assert(v0.objects(young, old, live) == v.objects(young, old, live));
        assert(v0.running_stack() == v.running_stack());
    }
    law_scavenge_succeeds(v0, young, old, live);
    law_scavenge_keeps_graph(v0, young, old, live);
    let s = v0.scavenged()->Ok_0;
    let (m0, y1, o1) = choose|m0: Map<int, int>, y1: Seq<usize>, o1: Seq<usize>|
        scavenge_keeps(v0, old, s, m0, y1, o1);
    let v1 = VmView { compacts: s.compacts.wrapping_add(1), ..s.collection_begun() };
    assert(v1.roots() =~= s.roots());
    assert(v1.sound(y1, o1, Set::full())) by {
        reveal(VmView::sound);
        assert(v1.objects(y1, o1, Set::full()) == s.objects(y1, o1, Set::full()));
        assert(v1.running_stack() == s.running_stack());
    }
    lemma_marked_heap(v1, y1, o1, Set::full());
    let found = lemma_compacted(v1.objects(y1, o1, Set::full()), v1.marked_heap()->0);
}

/// Machines that run still run when the object graph is kept.
#[verifier::rlimit(60)]
pub proof fn law_kept_graphs_run(v: VmView, w: VmView, m: Map<int, int>)
    requires
        same_graph(v, w, m),
        v.runs(),
        v.specials.len() > SPECIAL_NIL,
        w.specials.len() == v.specials.len(),
        v.active.tagged_ptr() && v.heap.plausible(v.active.addr()) ==> !v.heap.hdr(
            v.active.addr(),
        ).byte_format(),
    ensures
        w.runs(),
{
    lemma_with_roots(v, v.roots());
    lemma_with_roots(w, w.roots());
    let last = v.roots().len() - 1;
    let n = SPECIAL_NIL as int;
    assert(v.roots().len() > SPECIAL_NIL);
    assert(follows(v.heap, m, v.roots()[last], w.roots()[last]));
    assert(follows(v.heap, m, v.roots()[n], w.roots()[n]));
    let a = v.active.addr();
    let i = PROCESS_STACK as int;
    if w.active.tagged_ptr() && w.active != w.nil() {
        assert(v.active.tagged_ptr() && v.active != v.nil());
        assert(m.dom().contains(a));
        assert(carried(v.heap, a, w.heap, m[a], m));
        let st = v.heap.slot(a, i);
        let sw = w.heap.slot(m[a], i);
        crate::value::lemma_untag_bits(w.active);
        assert(w.heap.whole(m[a]));
        assert(w.active.addr() == m[a]);
        assert(follows(v.heap, m, st, sw));
        if sw.tagged_ptr() && sw != w.nil() {
            if st.tagged_ptr() && v.heap.plausible(st.addr()) {
                assert(carried(v.heap, st.addr(), w.heap, m[st.addr()], m));
                assert(sw.addr() == m[st.addr()]);
            }
        }
    }
}

} // verus!
