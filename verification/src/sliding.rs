//! An old collection keeps the object graph.

use crate::compact::{MarkView, Move};
use crate::graph::{
    fin, headed, lemma_inside, lemma_low_bit, lemma_reads_after_write, lemma_tiles_kept,
    lemma_within, listed, same_fields, same_size, tiles, Objects,
};
use crate::heap::{Header, HeapView};
use crate::remembered::remembers;
use crate::survival::{
    came_from, carried, follows, holds_reached, lands_in, law_scavenge_keeps_graph, leads_in,
    moved_twice, only_reached, same_graph, scavenge_keeps, unmoved,
};
use crate::value::Value;
use crate::vm::VmView;
use vstd::prelude::*;

verus! {

// ---------------------------------------------------------------------------
// Marking
// ---------------------------------------------------------------------------
/// The heap is as it was but for marks.
#[verifier::opaque]
pub open spec fn marked_only(b: Objects, h: HeapView) -> bool {
    &&& h.wf()
    &&& h.layout() == b.heap.layout()
    &&& h.from.alloc == b.heap.from.alloc
    &&& h.to.alloc == b.heap.to.alloc
    &&& h.old.alloc == b.heap.old.alloc
    &&& h.ssb == b.heap.ssb
    &&& forall|x: int|
        b.heap.plausible(x) && !b.lists(x) ==> #[trigger] h.read(x) == b.heap.read(x)
    &&& forall|a: int| #[trigger]
        b.lists(a) ==> h.read(a) == b.heap.read(a) || h.read(a) == with_bit(b.heap, a)
}

/// The header word of the object at `a` with its mark set.
pub open spec fn with_bit(h: HeapView, a: int) -> u64 {
    h.hdr(a).regc(h.hdr(a).gc_field() | 1).0
}

/// A marked header has the fields of the header and its low bit set.
proof fn lemma_with_bit(h: HeapView, a: int)
    ensures
        same_fields(h.hdr(a), Header(with_bit(h, a))),
        with_bit(h, a) & 1 == 1,
        h.hdr(a).gc_field() <= 255,
        Header(with_bit(h, a)).gc_field() == h.hdr(a).gc_field() | 1,
{
    let g = h.hdr(a).gc_field();
    crate::heap::lemma_header_update(h.hdr(a), 0, 0);
    assert(g | 1 <= 255 && (g | 1) & 1 == 1 && (g | 1) & 0x84 == g & 0x84) by (bit_vector)
        requires
            g <= 255,
    ;
    crate::heap::lemma_header_update(h.hdr(a), 0, g | 1);
    lemma_low_bit(with_bit(h, a));
}

/// The mark is the low bit of the header word.
proof fn lemma_mark_bit(h: HeapView, a: int)
    ensures
        h.marked(a) == (h.read(a) & 1 == 1),
{
    let w = h.read(a);
    lemma_low_bit(w);
    assert((w & 1) == 0 || (w & 1) == 1) by (bit_vector);
}

/// A word inside a listed object that is not its header is no header.
#[verifier::rlimit(60)]
proof fn lemma_no_header(b: Objects, a: int, x: int)
    requires
        b.sound(),
        b.lists(a),
        b.heap.storage_start(a) <= x < fin(b.heap, a),
        x != a,
        x % 8 == 0,
    ensures
        !b.lists(x),
        b.heap.plausible(x),
{
    reveal(Objects::sound);
    let h = b.heap;
    if listed(b.young, a) {
        lemma_within(h, b.young, h.from.base, h.from.top(), a);
        lemma_inside(h, b.young, h.from.base, h.from.top(), a, x);
        if listed(b.old, x) {
            lemma_within(h, b.old, h.old.base, h.old.top(), x);
        }
    } else {
        lemma_within(h, b.old, h.old.base, h.old.top(), a);
        lemma_inside(h, b.old, h.old.base, h.old.top(), a, x);
        if listed(b.young, x) {
            lemma_within(h, b.young, h.from.base, h.from.top(), x);
        }
    }
}

/// Where a listed object lies.
proof fn lemma_listed(b: Objects, a: int)
    requires
        b.sound(),
        b.lists(a),
    ensures
        b.heap.whole(a),
        b.heap.plausible(a),
        b.heap.young(a) || b.heap.tenured(a),
        listed(b.old, a) ==> b.heap.tenured(a) && !b.heap.young(a) && b.heap.old.base
            <= b.heap.storage_start(a) && fin(b.heap, a) <= b.heap.old.top(),
        listed(b.young, a) ==> b.heap.young(a) && !b.heap.tenured(a) && b.heap.from.base
            <= b.heap.storage_start(a) && fin(b.heap, a) <= b.heap.from.top(),
        b.heap.storage_start(a) <= a,
        b.heap.read(a) & 1 == 0,
        headed(b.heap, a),
{
    reveal(Objects::sound);
    let h = b.heap;
    if listed(b.young, a) {
        lemma_within(h, b.young, h.from.base, h.from.top(), a);
    }
    if listed(b.old, a) {
        lemma_within(h, b.old, h.old.base, h.old.top(), a);
    }
}

/// Two heaps agree on the object at `a` but for its collector bits.
pub open spec fn same_words(h0: HeapView, h: HeapView, a: int) -> bool {
    &&& same_fields(h0.hdr(a), h.hdr(a))
    &&& h0.has_over(a) ==> h.read(a - 8) == h0.read(a - 8)
    &&& forall|i: int| 0 <= i < h0.nslots(a) ==> #[trigger] h.slot(a, i) == h0.slot(a, i)
}

proof fn lemma_same_words(h0: HeapView, h: HeapView, a: int)
    requires
        same_words(h0, h, a),
    ensures
        h.nslots(a) == h0.nslots(a),
        h.has_over(a) == h0.has_over(a),
        h.storage_start(a) == h0.storage_start(a),
        h.footprint(a) == h0.footprint(a),
        fin(h, a) == fin(h0, a),
        h.hdr(a).byte_format() == h0.hdr(a).byte_format(),
        same_size(h0, h, a),
{
}

/// A marked heap holds the objects it held.
proof fn lemma_marked_words(b: Objects, h: HeapView, a: int)
    requires
        b.sound(),
        marked_only(b, h),
        b.lists(a),
    ensures
        same_words(b.heap, h, a),
        h.whole(a),
{
    lemma_listed(b, a);
    lemma_with_bit(b.heap, a);
    reveal(marked_only);
    if b.heap.has_over(a) {
        lemma_no_header(b, a, a - 8);
    }
    assert forall|i: int| 0 <= i < b.heap.nslots(a) implies #[trigger] h.slot(a, i) == b.heap.slot(
        a,
        i,
    ) by {
        lemma_no_header(b, a, a + 8 + 8 * i);
    }
}

/// Everything the object at `a` points to is marked.
pub open spec fn traced(b: Objects, h: HeapView, a: int) -> bool {
    b.heap.hdr(a).byte_format() || forall|i: int|
        0 <= i < b.heap.nslots(a) ==> target_marked(b, h, #[trigger] b.heap.slot(a, i))
}

/// What a value points to is marked.
pub open spec fn target_marked(b: Objects, h: HeapView, v: Value) -> bool {
    v.tagged_ptr() && b.heap.plausible(v.addr()) ==> h.marked(v.addr())
}

/// Marking in progress: marked objects count and lie in the set `t`, and each
/// of them was traced, waits to be, or is at hand.
#[verifier::opaque]
pub open spec fn marking(b: Objects, s: MarkView, at_hand: Set<int>, t: Set<int>) -> bool {
    &&& forall|o: int| #[trigger] listed(s.stack, o) ==> b.has(o) && t.contains(o)
    &&& forall|a: int| #[trigger]
        b.lists(a) && s.heap.marked(a) ==> b.has(a) && t.contains(a) && (traced(b, s.heap, a)
            || listed(s.stack, a) || at_hand.contains(a))
}

/// The slots of what a set holds lead into the set.
pub open spec fn shut(h: HeapView, t: Set<int>) -> bool {
    forall|a: int, i: int|
        t.contains(a) && !h.hdr(a).byte_format() && 0 <= i < h.nslots(a) ==> leads_in(
            h,
            #[trigger] h.slot(a, i),
            t,
        )
}

/// What is marked stays marked.
pub open spec fn more_marked(b: Objects, h: HeapView, h1: HeapView) -> bool {
    forall|a: int| b.lists(a) && #[trigger] h.marked(a) ==> h1.marked(a)
}

#[verifier::rlimit(60)]
proof fn lemma_traced_more(b: Objects, h: HeapView, h1: HeapView, a: int)
    requires
        b.sound(),
        b.has(a),
        traced(b, h, a),
        more_marked(b, h, h1),
    ensures
        traced(b, h1, a),
{
    if !b.heap.hdr(a).byte_format() {
        assert forall|i: int| 0 <= i < b.heap.nslots(a) implies target_marked(
            b,
            h1,
            #[trigger] b.heap.slot(a, i),
        ) by {
            let v = b.heap.slot(a, i);
            assert(target_marked(b, h, v));
            assert(b.known(v)) by {
                reveal(Objects::sound);
            }
            if v.tagged_ptr() && b.heap.plausible(v.addr()) {
                assert(b.lists(v.addr()));
            }
        }
    }
}

/// Marking what a value points to.
#[verifier::rlimit(60)]
proof fn lemma_mark_keeps(b: Objects, s: MarkView, v: Value, at_hand: Set<int>, t: Set<int>)
    requires
        b.sound(),
        marked_only(b, s.heap),
        marking(b, s, at_hand, t),
        b.known(v),
        leads_in(b.heap, v, t),
    ensures
        marked_only(b, s.mark(v).heap),
        marking(b, s.mark(v), at_hand, t),
        more_marked(b, s.heap, s.mark(v).heap),
        target_marked(b, s.mark(v).heap, v),
{
    let h = s.heap;
    let s1 = s.mark(v);
    let h1 = s1.heap;
    let o = v.addr();
    crate::value::lemma_untag_bits(v);
    assert(h.wf() && h.layout() == b.heap.layout()) by {
        reveal(marked_only);
    }
    if v.tagged_ptr() && (h.young(o) || h.tenured(o)) && !h.marked(o) {
        assert(b.has(o) && b.lists(o));
        lemma_listed(b, o);
        assert(h.read(o) == b.heap.read(o)) by {
            lemma_mark_bit(h, o);
            lemma_with_bit(b.heap, o);
            reveal(marked_only);
        }
        lemma_with_bit(h, o);
        lemma_reads_after_write(h, o, with_bit(h, o));
        lemma_mark_bit(h1, o);
        assert(marked_only(b, h1)) by {
            reveal(marked_only);
            assert(with_bit(h, o) == with_bit(b.heap, o));
            assert forall|a: int| #[trigger] b.lists(a) implies h1.read(a) == b.heap.read(a)
                || h1.read(a) == with_bit(b.heap, a) by {
                lemma_listed(b, a);
            }
        }
        assert forall|a: int| b.lists(a) && a != o implies #[trigger] h1.marked(a) == h.marked(a) by {
            lemma_listed(b, a);
            assert(h1.read(a) == h.read(a));
        }
        assert(more_marked(b, h, h1));
        crate::graph::lemma_listed_push(s.stack, o as usize);
        assert(o <= usize::MAX) by {
            reveal(marked_only);
        }
        assert(marking(b, s1, at_hand, t)) by {
            reveal(marking);
            assert forall|a: int| #[trigger] b.lists(a) && h1.marked(a) implies b.has(a)
                && t.contains(a) && (traced(b, h1, a) || listed(s1.stack, a) || at_hand.contains(
                a,
            )) by {
                if a != o {
                    assert(h1.marked(a) == h.marked(a));
                    if traced(b, h, a) {
                        lemma_traced_more(b, h, h1, a);
                    }
                }
            }
        }
    } else if v.tagged_ptr() && b.heap.plausible(o) {
        lemma_listed(b, o);
    }
}

#[verifier::rlimit(60)]
proof fn lemma_mark_all_keeps(b: Objects, s: MarkView, list: Seq<Value>, i: int, t: Set<int>)
    requires
        b.sound(),
        marked_only(b, s.heap),
        marking(b, s, Set::empty(), t),
        0 <= i,
        forall|k: int|
            0 <= k < list.len() ==> b.known(#[trigger] list[k]) && leads_in(b.heap, list[k], t),
        forall|k: int|
            0 <= k < i && k < list.len() ==> target_marked(b, s.heap, #[trigger] list[k]),
    ensures
        marked_only(b, s.mark_all(list, i).heap),
        marking(b, s.mark_all(list, i), Set::empty(), t),
        forall|k: int|
            0 <= k < list.len() ==> target_marked(
                b,
                s.mark_all(list, i).heap,
                #[trigger] list[k],
            ),
    decreases list.len() - i,
{
    if i < list.len() {
        lemma_mark_keeps(b, s, list[i], Set::empty(), t);
        let s1 = s.mark(list[i]);
        assert forall|k: int| 0 <= k < i + 1 && k < list.len() implies target_marked(
            b,
            s1.heap,
            #[trigger] list[k],
        ) by {
            let v = list[k];
            if v.tagged_ptr() && b.heap.plausible(v.addr()) {
                assert(b.lists(v.addr()));
            }
        }
        lemma_mark_all_keeps(b, s1, list, i + 1, t);
    }
}

#[verifier::rlimit(60)]
proof fn lemma_mark_slots_keeps(
    b: Objects,
    s: MarkView,
    o: int,
    i: int,
    n: int,
    at_hand: Set<int>,
    t: Set<int>,
)
    requires
        b.sound(),
        marked_only(b, s.heap),
        marking(b, s, at_hand, t),
        b.has(o),
        t.contains(o),
        shut(b.heap, t),
        !b.heap.hdr(o).byte_format(),
        0 <= i <= n,
        n == b.heap.nslots(o),
        forall|k: int| 0 <= k < i ==> target_marked(b, s.heap, #[trigger] b.heap.slot(o, k)),
    ensures
        ({
            let s1 = s.mark_slots(o, i, n);
            &&& marked_only(b, s1.heap)
            &&& marking(b, s1, at_hand, t)
            &&& more_marked(b, s.heap, s1.heap)
            &&& forall|k: int|
                0 <= k < n ==> target_marked(b, s1.heap, #[trigger] b.heap.slot(o, k))
        }),
    decreases n - i,
{
    if i < n {
        lemma_marked_words(b, s.heap, o);
        let v = s.heap.slot(o, i);
        assert(v == b.heap.slot(o, i));
        assert(forall|k: int| 0 <= k < n ==> b.known(#[trigger] b.heap.slot(o, k))) by {
            reveal(Objects::sound);
        }
        assert(leads_in(b.heap, b.heap.slot(o, i), t));
        lemma_mark_keeps(b, s, v, at_hand, t);
        let s1 = s.mark(v);
        assert forall|k: int| 0 <= k < i + 1 implies target_marked(
            b,
            s1.heap,
            #[trigger] b.heap.slot(o, k),
        ) by {
            let u = b.heap.slot(o, k);
            if u.tagged_ptr() && b.heap.plausible(u.addr()) {
                assert(b.lists(u.addr()));
            }
        }
        lemma_mark_slots_keeps(b, s1, o, i + 1, n, at_hand, t);
    }
}

#[verifier::rlimit(60)]
proof fn lemma_mark_drain_keeps(b: Objects, s: MarkView, t: Set<int>)
    requires
        b.sound(),
        marked_only(b, s.heap),
        marking(b, s, Set::empty(), t),
        shut(b.heap, t),
    ensures
        s.drain() matches Some(s1) && {
            &&& marked_only(b, s1.heap)
            &&& marking(b, s1, Set::empty(), t)
            &&& s1.stack.len() == 0
            &&& more_marked(b, s.heap, s1.heap)
        },
    decreases s.measure(),
{
    assert(s.heap.wf()) by {
        reveal(marked_only);
    }
    if s.stack.len() > 0 {
        let o = s.stack.last() as int;
        let s0 = MarkView { stack: s.stack.drop_last(), ..s };
        let at_hand = Set::empty().insert(o);
        assert(s.stack[s.stack.len() - 1] == o);
        assert(listed(s.stack, o));
        assert(b.has(o) && t.contains(o)) by {
            reveal(marking);
        }
        assert(marking(b, s0, at_hand, t)) by {
            reveal(marking);
            assert forall|p: int| #[trigger] listed(s0.stack, p) implies b.has(p) && t.contains(p) by {
                let k = choose|k: int| 0 <= k < s0.stack.len() && #[trigger] s0.stack[k] == p;
                assert(s.stack[k] == p);
                assert(listed(s.stack, p));
            }
            assert forall|a: int| #[trigger] b.lists(a) && s0.heap.marked(a) implies b.has(a)
                && t.contains(a) && (traced(b, s0.heap, a) || listed(s0.stack, a)
                || at_hand.contains(a)) by {
                if listed(s.stack, a) && a != o {
                    let k = choose|k: int| 0 <= k < s.stack.len() && #[trigger] s.stack[k] == a;
                    assert(s0.stack[k] == a);
                }
            }
        }
        lemma_marked_words(b, s.heap, o);
        lemma_same_words(b.heap, s.heap, o);
        crate::compact::lemma_mark_slots(s0, o, 0, s0.heap.nslots(o) as int);
        lemma_listed(b, o);
        assert(s0.heap.whole(o)) by {
            reveal(marked_only);
        }
        let s1 = s0.trace(o)->0;
        if !b.heap.hdr(o).byte_format() {
            lemma_mark_slots_keeps(b, s0, o, 0, s0.heap.nslots(o) as int, at_hand, t);
        }
        assert(traced(b, s1.heap, o));
        assert(marking(b, s1, Set::empty(), t)) by {
            reveal(marking);
        }
        lemma_mark_drain_keeps(b, s1, t);
    }
}

// ---------------------------------------------------------------------------
// The objects found again
// ---------------------------------------------------------------------------
#[verifier::rlimit(60)]
proof fn lemma_tail(h: HeapView, objs: Seq<usize>, p: int, top: int)
    requires
        tiles(h, objs, p, top),
        objs.len() > 0,
    ensures
        tiles(h, objs.skip(1), fin(h, objs[0] as int), top),
{
    let t = objs.skip(1);
    let q = fin(h, objs[0] as int);
    if t.len() > 0 {
        assert(t.last() == objs.last());
        assert(t[0] == objs[1]);
        assert(fin(h, objs[0] as int) == h.storage_start(objs[1] as int));
    } else {
        assert(objs.last() == objs[0]);
    }
    assert forall|i: int| 0 <= i < t.len() implies h.whole((#[trigger] t[i]) as int) && q
        <= h.storage_start(t[i] as int) && fin(h, t[i] as int) <= top by {
        assert(t[i] == objs[i + 1]);
        assert(fin(h, objs[0] as int) <= h.storage_start(objs[i + 1] as int));
    }
    assert forall|i: int, j: int| 0 <= i < j < t.len() implies fin(h, (#[trigger] t[i]) as int)
        <= h.storage_start((#[trigger] t[j]) as int) by {
        assert(t[i] == objs[i + 1] && t[j] == objs[j + 1]);
    }
    assert forall|i: int, j: int|
        0 <= i < t.len() && 0 <= j < t.len() && j == i + 1 implies fin(
        h,
        (#[trigger] t[i]) as int,
    ) == h.storage_start((#[trigger] t[j]) as int) by {
        assert(t[i] == objs[i + 1] && t[j] == objs[j + 1]);
    }
}

/// The class bits of a word.
pub(crate) proof fn lemma_class_bits(w: u64)
    ensures
        (w >> 42u64) & 0x3fffff == w >> 42u64,
{
    assert((w >> 42u64) & 0x3fffff == w >> 42u64) by (bit_vector);
}

/// A walk over a region that objects fill finds them all.
#[verifier::rlimit(60)]
pub(crate) proof fn lemma_walk(h: HeapView, objs: Seq<usize>, p: int, top: int)
    requires
        tiles(h, objs, p, top),
        forall|i: int| 0 <= i < objs.len() ==> headed(h, (#[trigger] objs[i]) as int),
    ensures
        h.walk(p, top) == Some(objs),
    decreases objs.len(),
{
    if objs.len() > 0 {
        let o = objs[0] as int;
        assert(h.whole(objs[0] as int));
        assert(headed(h, objs[0] as int));
        lemma_class_bits(h.read(o));
        let t = objs.skip(1);
        lemma_tail(h, objs, p, top);
        assert forall|i: int| 0 <= i < t.len() implies headed(h, (#[trigger] t[i]) as int) by {
            assert(t[i] == objs[i + 1]);
        }
        lemma_walk(h, t, fin(h, o), top);
        assert(fin(h, o) <= top);
        assert(h.storage_start(o) + h.footprint(o) == fin(h, o));
        assert(seq![o as usize] + t =~= objs);
    } else {
        assert(objs =~= Seq::empty());
    }
}

// ---------------------------------------------------------------------------
// The plan
// ---------------------------------------------------------------------------
/// One past the storage of a slide's source and of its destination.
pub open spec fn source_end(m: Move) -> int {
    m.start + 8 * m.words
}

pub open spec fn dest_end(m: Move) -> int {
    m.dest + 8 * m.words
}

/// The slide is that of the marked object it names.
pub open spec fn move_ok(h: HeapView, m: Move) -> bool {
    let o = m.obj as int;
    &&& h.whole(o)
    &&& h.marked(o)
    &&& h.tenured(o)
    &&& m.start == h.storage_start(o)
    &&& source_end(m) == fin(h, o)
    &&& m.new_obj == m.dest + (o - m.start)
    &&& m.dest <= m.start
    &&& m.dest % 8 == 0
    &&& m.start <= o < source_end(m)
}

/// `x` is among `live[i..]`.
#[verifier::opaque]
pub open spec fn among(live: Seq<usize>, i: int, x: int) -> bool {
    exists|k: int| i <= k < live.len() && #[trigger] live[k] == x
}

/// Some slide is that of the object at `x`.
#[verifier::opaque]
pub open spec fn has_move(moves: Seq<Move>, x: int) -> bool {
    exists|j: int| 0 <= j < moves.len() && (#[trigger] moves[j]).obj == x
}

/// The slides of the marked objects of `live[i..]`: in order, close
/// together from `next` to `end`, none left out.
#[verifier::opaque]
pub open spec fn plan_ok(
    h: HeapView,
    live: Seq<usize>,
    i: int,
    next: int,
    moves: Seq<Move>,
    end: int,
) -> bool {
    &&& next <= end
    &&& moves.len() == 0 ==> end == next
    &&& moves.len() > 0 ==> moves[0].dest == next && dest_end(moves.last()) == end
    &&& forall|j: int|
        0 <= j < moves.len() ==> move_ok(h, #[trigger] moves[j]) && next <= moves[j].dest
            && dest_end(moves[j]) <= end && among(live, i, moves[j].obj as int)
    &&& forall|j: int, k: int|
        0 <= j < k < moves.len() ==> source_end(#[trigger] moves[j]) <= (
        #[trigger] moves[k]).start && dest_end(moves[j]) <= moves[k].dest
    &&& forall|j: int, k: int|
        0 <= j < moves.len() && 0 <= k < moves.len() && k == j + 1 ==> dest_end(
            #[trigger] moves[j],
        ) == (#[trigger] moves[k]).dest
    &&& forall|k: int|
        i <= k < live.len() && h.marked((#[trigger] live[k]) as int) ==> has_move(
            moves,
            live[k] as int,
        )
}

/// A slide's measures.
proof fn lemma_move_to(h: HeapView, o: int, next: int)
    requires
        h.wf(),
        h.whole(o),
        h.marked(o),
        h.movable(o, next),
        0 <= next,
        next % 8 == 0,
    ensures
        move_ok(h, h.move_to(o, next)),
        h.move_to(o, next).dest == next,
        h.move_to(o, next).obj == o,
        dest_end(h.move_to(o, next)) == next + h.footprint(o),
        h.footprint(o) % 8 == 0,
        h.footprint(o) > 0,
{
}

/// Marked objects of old space can slide down.
#[verifier::rlimit(60)]
proof fn lemma_plan_works(h: HeapView, live: Seq<usize>, i: int, next: int)
    requires
        h.wf(),
        tiles(h, live, h.old.base, h.old.top()),
        0 <= i <= live.len(),
        i < live.len() ==> next <= h.storage_start(live[i] as int),
    ensures
        h.plan(live, i, next) is Some,
    decreases live.len() - i,
{
    if i < live.len() {
        let o = live[i] as int;
        assert(h.whole(live[i] as int));
        assert(listed(live, live[i] as int));
        lemma_within(h, live, h.old.base, h.old.top(), o);
        if i + 1 < live.len() {
            assert(fin(h, live[i] as int) == h.storage_start(live[i + 1] as int));
        }
        if h.marked(o) {
            assert(h.footprint(o) == fin(h, o) - h.storage_start(o));
            assert(h.movable(o, next));
            lemma_plan_works(h, live, i + 1, next + h.footprint(o));
        } else {
            lemma_plan_works(h, live, i + 1, next);
        }
    }
}

#[verifier::rlimit(60)]
proof fn lemma_plan(h: HeapView, live: Seq<usize>, p: int, top: int, i: int, next: int)
    requires
        h.wf(),
        tiles(h, live, p, top),
        0 <= i <= live.len(),
        0 <= next,
        next % 8 == 0,
    ensures
        h.plan(live, i, next) matches Some((moves, end)) ==> plan_ok(
            h,
            live,
            i,
            next,
            moves,
            end,
        ),
    decreases live.len() - i,
{
    if i < live.len() {
        let o = live[i] as int;
        assert(h.whole(live[i] as int));
        let fp = h.footprint(o);
        if h.marked(o) {
            if h.movable(o, next) {
                lemma_move_to(h, o, next);
                lemma_plan(h, live, p, top, i + 1, next + fp);
                if let Some((rest, end)) = h.plan(live, i + 1, next + fp) {
                    lemma_plan_more(h, live, p, top, i, next, h.move_to(o, next), rest, end);
                }
            }
        } else {
            lemma_plan(h, live, p, top, i + 1, next);
            if let Some((moves, end)) = h.plan(live, i + 1, next) {
                lemma_plan_skip(h, live, i, next, moves, end);
            }
        }
    } else {
        reveal(plan_ok);
    }
}

pub(crate) proof fn lemma_among_more(live: Seq<usize>, i: int)
    requires
        0 <= i < live.len(),
    ensures
        forall|x: int| #[trigger] among(live, i + 1, x) ==> among(live, i, x),
        among(live, i, live[i] as int),
{
    reveal(among);
    assert forall|x: int| #[trigger] among(live, i + 1, x) implies among(live, i, x) by {
        let k = choose|k: int| i + 1 <= k < live.len() && #[trigger] live[k] == x;
        assert(live[k] == x);
    }
    assert(live[i] == live[i] as int);
}

proof fn lemma_plan_skip(
    h: HeapView,
    live: Seq<usize>,
    i: int,
    next: int,
    moves: Seq<Move>,
    end: int,
)
    requires
        0 <= i < live.len(),
        !h.marked(live[i] as int),
        plan_ok(h, live, i + 1, next, moves, end),
    ensures
        plan_ok(h, live, i, next, moves, end),
{
    reveal(plan_ok);
    lemma_among_more(live, i);
}

proof fn lemma_has_more(m: Move, rest: Seq<Move>)
    ensures
        has_move(seq![m] + rest, m.obj as int),
        forall|x: int| #[trigger] has_move(rest, x) ==> has_move(seq![m] + rest, x),
{
    reveal(has_move);
    let moves = seq![m] + rest;
    assert(moves[0].obj == m.obj);
    assert forall|x: int| #[trigger] has_move(rest, x) implies has_move(moves, x) by {
        let j = choose|j: int| 0 <= j < rest.len() && (#[trigger] rest[j]).obj == x;
        assert(moves[j + 1].obj == x);
    }
}

/// What comes later in a list of objects lies after.
proof fn lemma_after(h: HeapView, live: Seq<usize>, p: int, top: int, i: int, x: int)
    requires
        tiles(h, live, p, top),
        0 <= i < live.len(),
        among(live, i + 1, x),
    ensures
        fin(h, live[i] as int) <= h.storage_start(x),
{
    reveal(among);
    let k = choose|k: int| i + 1 <= k < live.len() && #[trigger] live[k] == x;
    assert(fin(h, live[i] as int) <= h.storage_start(live[k] as int));
}

#[verifier::rlimit(60)]
#[verifier::spinoff_prover]
proof fn lemma_plan_more(
    h: HeapView,
    live: Seq<usize>,
    p: int,
    top: int,
    i: int,
    next: int,
    m: Move,
    rest: Seq<Move>,
    end: int,
)
    requires
        tiles(h, live, p, top),
        0 <= i < live.len(),
        m.obj == live[i],
        move_ok(h, m),
        m.dest == next,
        plan_ok(h, live, i + 1, dest_end(m), rest, end),
    ensures
        plan_ok(h, live, i, next, seq![m] + rest, end),
{
    reveal(plan_ok);
    let moves = seq![m] + rest;
    lemma_among_more(live, i);
    lemma_has_more(m, rest);
    assert(moves[0] == m);
    if rest.len() > 0 {
        assert(moves.last() == rest.last());
    } else {
        assert(moves.last() == m);
    }
    assert forall|j: int| 0 <= j < moves.len() implies move_ok(h, #[trigger] moves[j]) && next
        <= moves[j].dest && dest_end(moves[j]) <= end && among(live, i, moves[j].obj as int) by {
        if j > 0 {
            assert(moves[j] == rest[j - 1]);
        }
    }
    assert forall|j: int, k: int| 0 <= j < k < moves.len() implies source_end(#[trigger] moves[j])
        <= (#[trigger] moves[k]).start && dest_end(moves[j]) <= moves[k].dest by {
        assert(moves[k] == rest[k - 1]);
        if j > 0 {
            assert(moves[j] == rest[j - 1]);
        } else {
            lemma_after(h, live, p, top, i, rest[k - 1].obj as int);
        }
    }
    assert forall|j: int, k: int|
        0 <= j < moves.len() && 0 <= k < moves.len() && k == j + 1 implies dest_end(
        #[trigger] moves[j],
    ) == (#[trigger] moves[k]).dest by {
        assert(moves[k] == rest[k - 1]);
        if j > 0 {
            assert(moves[j] == rest[j - 1]);
        }
    }
    assert forall|k: int|
        i <= k < live.len() && h.marked((#[trigger] live[k]) as int) implies has_move(
        moves,
        live[k] as int,
    ) by {
    }
}

/// The map of a plan sends every object moved to where it goes, and nothing
/// else anywhere.
#[verifier::rlimit(60)]
proof fn lemma_relocations(moves: Seq<Move>, n: int)
    requires
        0 <= n <= moves.len(),
        forall|j: int, k: int|
            0 <= j < k < moves.len() ==> (#[trigger] moves[j]).obj != (#[trigger] moves[k]).obj,
    ensures
        forall|j: int|
            0 <= j < n ==> crate::compact::relocations(moves, n).dom().contains(
                (#[trigger] moves[j]).obj,
            ) && crate::compact::relocations(moves, n)[moves[j].obj] == moves[j].new_obj,
        forall|x: u64| #[trigger]
            crate::compact::relocations(moves, n).dom().contains(x) ==> exists|j: int|
                0 <= j < n && (#[trigger] moves[j]).obj == x,
    decreases n,
{
    if n > 0 {
        lemma_relocations(moves, n - 1);
        let f = crate::compact::relocations(moves, n - 1);
        let g = crate::compact::relocations(moves, n);
        assert forall|j: int| 0 <= j < n implies g.dom().contains((#[trigger] moves[j]).obj)
            && g[moves[j].obj] == moves[j].new_obj by {
            if j < n - 1 {
                assert(moves[j].obj != moves[n - 1].obj);
                assert(f.dom().contains(moves[j].obj));
            }
        }
        assert forall|x: u64| #[trigger] g.dom().contains(x) implies exists|j: int|
            0 <= j < n && (#[trigger] moves[j]).obj == x by {
            if x == moves[n - 1].obj {
                assert(moves[n - 1].obj == x);
            } else {
                assert(f.dom().contains(x));
                let j = choose|j: int| 0 <= j < n - 1 && (#[trigger] moves[j]).obj == x;
                assert(moves[j].obj == x);
            }
        }
    }
}

// ---------------------------------------------------------------------------
// Pointers rewritten
// ---------------------------------------------------------------------------
/// What rewriting slots `i..n` of the object at `o` does.
pub open spec fn slots_fixed(
    h: HeapView,
    r: HeapView,
    o: int,
    i: int,
    n: int,
    fwd: Map<u64, u64>,
) -> bool {
    &&& r.wf()
    &&& r.layout() == h.layout()
    &&& r.from.alloc == h.from.alloc
    &&& r.to.alloc == h.to.alloc
    &&& r.old.alloc == h.old.alloc
    &&& r.ssb == h.ssb
    &&& forall|x: int|
        h.plausible(x) && !(o + 8 + 8 * i <= x < o + 8 + 8 * n) ==> #[trigger] r.read(x) == h.read(
            x,
        )
    &&& forall|k: int|
        i <= k < n ==> #[trigger] r.slot(o, k) == crate::compact::relocate(fwd, h.slot(o, k))
}

#[verifier::rlimit(60)]
proof fn lemma_fix_slots(h: HeapView, o: int, i: int, n: int, fwd: Map<u64, u64>)
    requires
        h.wf(),
        h.plausible(o),
        0 <= i <= n,
        o + 8 + 8 * n <= h.limit_of(o),
    ensures
        slots_fixed(h, h.fix_slots(o, i, n, fwd), o, i, n, fwd),
    decreases n - i,
{
    if i < n {
        let v = h.slot(o, i);
        let x = o + 8 + 8 * i;
        assert(h.plausible(x));
        let h1 = if v.tagged_ptr() && fwd.dom().contains(v.0) {
            h.set_slot(o, i, Value(fwd[v.0]))
        } else {
            h
        };
        lemma_reads_after_write(h, x, fwd[v.0]);
        lemma_fix_slots(h1, o, i + 1, n, fwd);
        let r = h1.fix_slots(o, i + 1, n, fwd);
        assert(h1.slot(o, i) == crate::compact::relocate(fwd, v));
        assert(r.read(x) == h1.read(x)) by {
            assert(h1.plausible(x));
        }
        assert forall|k: int| i <= k < n implies #[trigger] r.slot(o, k)
            == crate::compact::relocate(fwd, h.slot(o, k)) by {
            if k > i {
                assert(h.plausible(o + 8 + 8 * k));
                assert(h1.slot(o, k) == h.slot(o, k));
            }
        }
        assert forall|y: int|
            h.plausible(y) && !(o + 8 + 8 * i <= y < o + 8 + 8 * n) implies #[trigger] r.read(y)
            == h.read(y) by {
            assert(h1.plausible(y));
            assert(h1.read(y) == h.read(y));
        }
    }
}

/// An address among the slots of an object of `list[i..]`.
pub open spec fn among_slots(h: HeapView, list: Seq<usize>, i: int, x: int) -> bool {
    exists|k: int| i <= k < list.len() && (#[trigger] list[k]) < x < fin(h, list[k] as int)
}

/// What rewriting the pointers of the marked objects of `list[i..]` does.
pub open spec fn objects_fixed(
    h: HeapView,
    r: HeapView,
    list: Seq<usize>,
    i: int,
    fwd: Map<u64, u64>,
) -> bool {
    &&& r.wf()
    &&& r.layout() == h.layout()
    &&& r.from.alloc == h.from.alloc
    &&& r.to.alloc == h.to.alloc
    &&& r.old.alloc == h.old.alloc
    &&& r.ssb == h.ssb
    &&& forall|x: int|
        h.plausible(x) && !among_slots(h, list, i, x) ==> #[trigger] r.read(x) == h.read(x)
    &&& forall|k: int, j: int|
        i <= k < list.len() && 0 <= j < h.nslots(list[k] as int) ==> #[trigger] r.slot(
            list[k] as int,
            j,
        ) == if h.marked(list[k] as int) && !h.hdr(list[k] as int).byte_format() {
            crate::compact::relocate(fwd, h.slot(list[k] as int, j))
        } else {
            h.slot(list[k] as int, j)
        }
}

#[verifier::rlimit(60)]
#[verifier::spinoff_prover]
proof fn lemma_fix_objects(
    h: HeapView,
    list: Seq<usize>,
    p: int,
    top: int,
    i: int,
    fwd: Map<u64, u64>,
)
    requires
        h.wf(),
        tiles(h, list, p, top),
        0 <= i <= list.len(),
    ensures
        h.fix_objects(list, i, fwd) matches Some(r) && objects_fixed(h, r, list, i, fwd),
    decreases list.len() - i,
{
    if i < list.len() {
        let o = list[i] as int;
        assert(h.whole(list[i] as int));
        let n = h.nslots(o) as int;
        let h1 = if !h.marked(o) || h.hdr(o).byte_format() {
            h
        } else {
            h.fix_slots(o, 0, n, fwd)
        };
        lemma_fix_slots(h, o, 0, n, fwd);
        assert forall|k: int| 0 <= k < list.len() implies same_size(
            h,
            h1,
            (#[trigger] list[k]) as int,
        ) && h1.read(list[k] as int) == h.read(list[k] as int) by {
            let a = list[k] as int;
            assert(h.whole(list[k] as int));
            if k < i {
                assert(fin(h, list[k] as int) <= h.storage_start(list[i] as int));
            } else if k > i {
                assert(fin(h, list[i] as int) <= h.storage_start(list[k] as int));
            }
            assert(h1.read(a) == h.read(a));
            if h.has_over(a) {
                assert(h1.read(a - 8) == h.read(a - 8));
            }
        }
        lemma_tiles_kept(h, h1, list, p, top);
        lemma_fix_objects(h1, list, p, top, i + 1, fwd);
        if let Some(r) = h1.fix_objects(list, i + 1, fwd) {
            lemma_fix_more(h, h1, r, list, p, top, i, fwd);
        }
    }
}

#[verifier::rlimit(60)]
#[verifier::spinoff_prover]
proof fn lemma_fix_more(
    h: HeapView,
    h1: HeapView,
    r: HeapView,
    list: Seq<usize>,
    p: int,
    top: int,
    i: int,
    fwd: Map<u64, u64>,
)
    requires
        h.wf(),
        tiles(h, list, p, top),
        0 <= i < list.len(),
        ({
            let o = list[i] as int;
            if !h.marked(o) || h.hdr(o).byte_format() {
                h1 == h
            } else {
                slots_fixed(h, h1, o, 0, h.nslots(o) as int, fwd)
            }
        }),
        forall|k: int|
            0 <= k < list.len() ==> same_size(h, h1, (#[trigger] list[k]) as int) && h1.read(
                list[k] as int,
            ) == h.read(list[k] as int),
        objects_fixed(h1, r, list, i + 1, fwd),
    ensures
        objects_fixed(h, r, list, i, fwd),
{
    let o = list[i] as int;
    assert(h1.layout() == h.layout());
    assert forall|x: int| h.plausible(x) && !among_slots(h, list, i, x) implies #[trigger] r.read(x)
        == h.read(x) by {
        assert(!(list[i] < x < fin(h, list[i] as int)));
        assert(h1.read(x) == h.read(x));
        if among_slots(h1, list, i + 1, x) {
            let k = choose|k: int|
                i + 1 <= k < list.len() && (#[trigger] list[k]) < x < fin(h1, list[k] as int);
            assert(same_size(h, h1, list[k] as int));
            assert(list[k] < x < fin(h, list[k] as int));
        }
        assert(h1.plausible(x));
    }
    assert forall|k: int, j: int|
        i <= k < list.len() && 0 <= j < h.nslots(list[k] as int) implies #[trigger] r.slot(
        list[k] as int,
        j,
    ) == if h.marked(list[k] as int) && !h.hdr(list[k] as int).byte_format() {
        crate::compact::relocate(fwd, h.slot(list[k] as int, j))
    } else {
        h.slot(list[k] as int, j)
    } by {
        let a = list[k] as int;
        let x = a + 8 + 8 * j;
        assert(h.whole(list[k] as int));
        assert(h.plausible(x) && h1.plausible(x));
        assert(same_size(h, h1, list[k] as int));
        if k == i {
            if among_slots(h1, list, i + 1, x) {
                let y = choose|y: int|
                    i + 1 <= y < list.len() && (#[trigger] list[y]) < x < fin(h1, list[y] as int);
                assert(fin(h, list[i] as int) <= h.storage_start(list[y] as int));
                assert(h.whole(list[y] as int));
            }
            assert(r.read(x) == h1.read(x));
            assert(h1.slot(a, j) == if h.marked(a) && !h.hdr(a).byte_format() {
                crate::compact::relocate(fwd, h.slot(a, j))
            } else {
                h.slot(a, j)
            });
        } else {
            assert(fin(h, list[i] as int) <= h.storage_start(list[k] as int));
            assert(h.whole(list[i] as int));
            assert(h1.read(x) == h.read(x));
            assert(h1.slot(a, j) == h.slot(a, j));
            assert(h1.hdr(a) == h.hdr(a));
        }
    }
}

// ---------------------------------------------------------------------------
// Sliding
// ---------------------------------------------------------------------------
/// Bits of a header that lands.
pub(crate) proof fn lemma_landing_bits(g: u64)
    requires
        g <= 255,
    ensures
        g & !3u64 <= 255,
        (g & !3u64) & 1 == 0,
        (g & !3u64) & 2 == 0,
        ((g & !3u64) | 2) <= 255,
        ((g & !3u64) | 2) & 1 == 0,
        ((g & !3u64) | 2) & 2 == 2,
        (g & !3u64) & 0x84 == g & 0x84,
        ((g & !3u64) | 2) & 0x84 == g & 0x84,
{
    assert(g & !3u64 <= 255 && (g & !3u64) & 1 == 0 && (g & !3u64) & 2 == 0 && ((g & !3u64) | 2) <= 255 && ((g & !3u64) | 2)
        & 1 == 0 && ((g & !3u64) | 2) & 2 == 2 && (g & !3u64) & 0x84 == g & 0x84 && ((g & !3u64) | 2) & 0x84 == g & 0x84)
        by (bit_vector)
        requires
            g <= 255,
    ;
}

/// The words of old space after a run of them was copied to the left.
#[verifier::rlimit(60)]
proof fn lemma_moved(h: HeapView, m: Move)
    requires
        h.wf(),
        m.start % 8 == 0,
        m.dest % 8 == 0,
        h.old.base <= m.dest <= m.start,
        source_end(m) <= h.old.limit(),
    ensures
        ({
            let b = h.old.base;
            let h1 = HeapView {
                old: h.old.moved((m.start - b) / 8, (m.dest - b) / 8, m.words as int),
                ..h
            };
            &&& h1.wf()
            &&& h1.layout() == h.layout()
            &&& forall|x: int|
                h.plausible(x) && !(m.dest <= x < dest_end(m)) ==> #[trigger] h1.read(x) == h.read(
                    x,
                )
            &&& forall|x: int|
                x % 8 == 0 && m.dest <= x < dest_end(m) ==> #[trigger] h1.read(x) == h.read(
                    x - m.dest + m.start,
                )
        }),
{
    reveal(HeapView::read);
    let b = h.old.base;
    let s = (m.start - b) / 8;
    let d = (m.dest - b) / 8;
    let o1 = h.old.moved(s, d, m.words as int);
    let h1 = HeapView { old: o1, ..h };
    assert forall|x: int| h.plausible(x) && !(m.dest <= x < dest_end(m)) implies #[trigger] h1.read(
        x,
    ) == h.read(x) by {
        if !h.from.has(x) && !h.to.has(x) {
            let k = (x - b) / 8;
            assert(!(d <= k < d + m.words));
            assert(o1.mem[k] == h.old.mem[k]);
        }
    }
    assert forall|x: int| x % 8 == 0 && m.dest <= x < dest_end(m) implies #[trigger] h1.read(x)
        == h.read(x - m.dest + m.start) by {
        let k = (x - b) / 8;
        assert(d <= k < d + m.words);
        assert(o1.mem[k] == h.old.mem[k - d + s]);
        assert((x - m.dest + m.start - b) / 8 == k - d + s);
    }
}

/// The object that a slide names stands at its destination.
pub open spec fn landed(h0: HeapView, h: HeapView, m: Move) -> bool {
    let o = m.obj as int;
    let n = m.new_obj as int;
    &&& same_fields(h0.hdr(o), h.hdr(n))
    &&& h.read(n) & 1 == 0
    &&& h0.has_over(o) ==> h.read(n - 8) == h0.read(o - 8)
    &&& forall|i: int| 0 <= i < h0.nslots(o) ==> #[trigger] h.slot(n, i) == h0.slot(o, i)
}

/// What one slide does.
pub open spec fn slid_one(h: HeapView, r: HeapView, m: Move) -> bool {
    let n = m.new_obj as int;
    &&& r.wf()
    &&& r.layout() == h.layout()
    &&& r.from.alloc == h.from.alloc
    &&& r.to.alloc == h.to.alloc
    &&& r.old.alloc == h.old.alloc
    &&& forall|x: int|
        h.plausible(x) && !(m.dest <= x < dest_end(m)) ==> #[trigger] r.read(x) == h.read(x)
    &&& landed(h, r, m)
    &&& r.points_young(n) == r.is_remembered(n)
    &&& r.ssb == if r.points_young(n) {
        h.ssb.push(n as usize)
    } else {
        h.ssb
    }
}

/// The object at a slide's destination before its collector bits are set.
proof fn lemma_mid(h: HeapView, h1: HeapView, m: Move)
    requires
        h.wf(),
        move_ok(h, m),
        h.old.base <= m.dest,
        source_end(m) <= h.old.limit(),
        h1.layout() == h.layout(),
        forall|x: int|
            x % 8 == 0 && m.dest <= x < dest_end(m) ==> #[trigger] h1.read(x) == h.read(
                x - m.dest + m.start,
            ),
    ensures
        ({
            let o = m.obj as int;
            let n = m.new_obj as int;
            &&& h1.hdr(n) == h.hdr(o)
            &&& h.has_over(o) ==> h1.read(n - 8) == h.read(o - 8)
            &&& h1.nslots(n) == h.nslots(o)
            &&& h1.whole(n)
            &&& n % 8 == 0
            &&& m.dest <= n < dest_end(m)
            &&& fin(h1, n) == dest_end(m)
            &&& forall|i: int| 0 <= i < h.nslots(o) ==> #[trigger] h1.slot(n, i) == h.slot(o, i)
        }),
{
    let o = m.obj as int;
    let n = m.new_obj as int;
    assert(h1.read(n) == h.read(o));
    if h.has_over(o) {
        assert(h1.read(n - 8) == h.read(n - 8 - m.dest + m.start));
    }
    assert forall|i: int| 0 <= i < h.nslots(o) implies #[trigger] h1.slot(n, i) == h.slot(o, i) by {
        let x = n + 8 + 8 * i;
        assert(h1.read(x) == h.read(x - m.dest + m.start));
        assert(x - m.dest + m.start == o + 8 + 8 * i);
    }
}

#[verifier::rlimit(60)]
#[verifier::spinoff_prover]
proof fn lemma_slide(h: HeapView, m: Move)
    requires
        h.wf(),
        move_ok(h, m),
        h.old.base <= m.dest,
        source_end(m) <= h.old.limit(),
    ensures
        slid_one(h, h.slide(m), m),
{
    let b = h.old.base;
    let o = m.obj as int;
    let n = m.new_obj as int;
    let h1 = HeapView {
        old: h.old.moved((m.start - b) / 8, (m.dest - b) / 8, m.words as int),
        ..h
    };
    lemma_moved(h, m);
    lemma_mid(h, h1, m);
    let g = h1.hdr(n).gc_field();
    crate::heap::lemma_header_update(h1.hdr(n), 0, 0);
    lemma_landing_bits(g);
    let bits = if h1.points_young(n) {
        (g & !3u64) | 2
    } else {
        g & !3u64
    };
    crate::heap::lemma_header_update(h1.hdr(n), 0, bits);
    lemma_low_bit(h1.hdr(n).regc(bits).0);
    let w = h1.write(n, h1.hdr(n).regc(bits).0);
    lemma_reads_after_write(h1, n, h1.hdr(n).regc(bits).0);
    let r = h.slide(m);
    assert(forall|x: int| #[trigger] r.read(x) == w.read(x)) by {
        reveal(HeapView::read);
    }
    assert(n <= usize::MAX);
    if h.has_over(o) {
        assert(h1.plausible(n - 8));
        assert(r.read(n - 8) == h1.read(n - 8));
    }
    assert forall|i: int| 0 <= i < h.nslots(o) implies #[trigger] r.slot(n, i) == h.slot(o, i) by {
        assert(h1.plausible(n + 8 + 8 * i));
        assert(r.slot(n, i) == h1.slot(n, i));
    }
    assert forall|x: int| h.plausible(x) && !(m.dest <= x < dest_end(m)) implies #[trigger] r.read(x)
        == h.read(x) by {
        assert(h1.plausible(x));
        assert(h1.read(x) == h.read(x));
        assert(w.read(x) == h1.read(x));
    }
    assert(r.points_young(n) == h1.points_young(n)) by {
        lemma_young_alike(h1, r, n);
    }
}

/// Objects with the same slots point young alike.
proof fn lemma_young_alike(h: HeapView, r: HeapView, n: int)
    requires
        h.whole(n),
        r.layout() == h.layout(),
        same_fields(h.hdr(n), r.hdr(n)),
        h.has_over(n) ==> r.read(n - 8) == h.read(n - 8),
        forall|i: int| 0 <= i < h.nslots(n) ==> #[trigger] r.slot(n, i) == h.slot(n, i),
    ensures
        r.points_young(n) == h.points_young(n),
        r.nslots(n) == h.nslots(n),
{
    if h.points_young(n) {
        let i = choose|i: int|
            0 <= i < h.nslots(n) && (#[trigger] h.slot(n, i)).tagged_ptr() && h.young(
                h.slot(n, i).addr(),
            );
        assert(r.slot(n, i) == h.slot(n, i));
    }
    if r.points_young(n) {
        let i = choose|i: int|
            0 <= i < r.nslots(n) && (#[trigger] r.slot(n, i)).tagged_ptr() && r.young(
                r.slot(n, i).addr(),
            );
        assert(r.slot(n, i) == h.slot(n, i));
    }
}

/// The first address that the slides before `j` have not filled.
pub open spec fn frontier(base: int, moves: Seq<Move>, j: int) -> int {
    if j <= 0 {
        base
    } else {
        dest_end(moves[j - 1])
    }
}

/// `x` is where one of the first `j` slides puts its object.
#[verifier::opaque]
pub open spec fn landing(moves: Seq<Move>, j: int, x: int) -> bool {
    exists|k: int| 0 <= k < j && (#[trigger] moves[k]).new_obj == x
}

/// What the first `j` slides do.
#[verifier::opaque]
pub open spec fn slid(h0: HeapView, h: HeapView, moves: Seq<Move>, j: int) -> bool {
    &&& h.wf()
    &&& h.layout() == h0.layout()
    &&& h.from.alloc == h0.from.alloc
    &&& h.to.alloc == h0.to.alloc
    &&& h.old.alloc == h0.old.alloc
    &&& forall|x: int|
        h0.plausible(x) && !(h0.old.base <= x < frontier(h0.old.base, moves, j))
            ==> #[trigger] h.read(x) == h0.read(x)
    &&& forall|k: int| 0 <= k < j ==> landed(h0, h, #[trigger] moves[k])
    &&& forall|x: int| #[trigger] listed(h.ssb, x) ==> landing(moves, j, x)
    &&& forall|k: int| 0 <= k < j ==> noted(h, (#[trigger] moves[k]).new_obj as int)
    &&& h.ssb.no_duplicates()
}

/// The object at `n` is in the remembered set and flagged just when it points
/// young.
pub open spec fn noted(h: HeapView, n: int) -> bool {
    &&& listed(h.ssb, n) <==> h.points_young(n)
    &&& h.is_remembered(n) <==> h.points_young(n)
}

/// The slides fit: each is that of its object, and they go in order.
pub open spec fn slides(h0: HeapView, moves: Seq<Move>) -> bool {
    &&& forall|j: int|
        0 <= j < moves.len() ==> move_ok(h0, #[trigger] moves[j]) && h0.old.base <= moves[j].dest
            && source_end(moves[j]) <= h0.old.limit()
    &&& forall|j: int, k: int|
        0 <= j < k < moves.len() ==> source_end(#[trigger] moves[j]) <= (
        #[trigger] moves[k]).start && dest_end(moves[j]) <= moves[k].dest
}

/// An object not moved yet is read as it was.
#[verifier::spinoff_prover]
#[verifier::rlimit(60)]
proof fn lemma_still(h0: HeapView, h: HeapView, moves: Seq<Move>, j: int)
    requires
        h0.wf(),
        slides(h0, moves),
        slid(h0, h, moves, j),
        0 <= j < moves.len(),
    ensures
        ({
            let m = moves[j];
            let o = m.obj as int;
            &&& move_ok(h, m)
            &&& h.old.base <= m.dest
            &&& source_end(m) <= h.old.limit()
            &&& same_words(h0, h, o)
            &&& h.hdr(o) == h0.hdr(o)
            &&& frontier(h0.old.base, moves, j) <= m.dest
        }),
{
    reveal(slid);
    let m = moves[j];
    let o = m.obj as int;
    assert(move_ok(h0, moves[j]));
    if j > 0 {
        assert(dest_end(moves[j - 1]) <= moves[j].dest);
    }
    assert(h.read(o) == h0.read(o));
    if h0.has_over(o) {
        assert(h0.plausible(o - 8));
        assert(h.read(o - 8) == h0.read(o - 8));
    }
    assert forall|i: int| 0 <= i < h0.nslots(o) implies #[trigger] h.slot(o, i) == h0.slot(o, i) by {
        assert(h0.plausible(o + 8 + 8 * i));
    }
}

/// A landed object is not touched by later slides.
#[verifier::rlimit(60)]
proof fn lemma_landed_kept(h0: HeapView, h: HeapView, r: HeapView, m: Move, lo: int)
    requires
        h0.wf(),
        move_ok(h0, m),
        h0.old.base <= m.dest,
        source_end(m) <= h0.old.limit(),
        h.layout() == h0.layout(),
        r.layout() == h0.layout(),
        landed(h0, h, m),
        dest_end(m) <= lo,
        forall|x: int| h.plausible(x) && x < lo && h.tenured(x) ==> #[trigger] r.read(x) == h.read(x),
    ensures
        landed(h0, r, m),
        r.points_young(m.new_obj as int) == h.points_young(m.new_obj as int),
        r.is_remembered(m.new_obj as int) == h.is_remembered(m.new_obj as int),
{
    let o = m.obj as int;
    let n = m.new_obj as int;
    assert(n % 8 == 0);
    assert(h.plausible(n) && h.tenured(n));
    assert(r.read(n) == h.read(n));
    if h0.has_over(o) {
        assert(h.plausible(n - 8) && h.tenured(n - 8));
    }
    assert forall|i: int| 0 <= i < h0.nslots(o) implies #[trigger] r.slot(n, i) == h0.slot(o, i) by {
        assert(h.plausible(n + 8 + 8 * i) && h.tenured(n + 8 + 8 * i));
        assert(h.slot(n, i) == h0.slot(o, i));
    }
    assert(h.nslots(n) == h0.nslots(o));
    assert forall|i: int| 0 <= i < h.nslots(n) implies #[trigger] r.slot(n, i) == h.slot(n, i) by {
        assert(h.slot(n, i) == h0.slot(o, i));
    }
    lemma_young_alike(h, r, n);
}

#[verifier::rlimit(60)]
#[verifier::spinoff_prover]
proof fn lemma_slid_more(h0: HeapView, h: HeapView, moves: Seq<Move>, j: int)
    requires
        h0.wf(),
        slides(h0, moves),
        slid(h0, h, moves, j),
        0 <= j < moves.len(),
    ensures
        slid(h0, h.slide(moves[j]), moves, j + 1),
{
    let m = moves[j];
    let r = h.slide(m);
    let n = m.new_obj as int;
    lemma_still(h0, h, moves, j);
    assert(h.wf() && h.layout() == h0.layout()) by {
        reveal(slid);
    }
    lemma_slide(h, m);
    let o = m.obj as int;
    assert(landed(h0, r, m)) by {
        assert forall|i: int| 0 <= i < h0.nslots(o) implies #[trigger] r.slot(n, i) == h0.slot(
            o,
            i,
        ) by {
            assert(r.slot(n, i) == h.slot(o, i));
            assert(h.slot(o, i) == h0.slot(o, i));
        }
    }
    assert(n <= usize::MAX);
    crate::graph::lemma_listed_push(h.ssb, n as usize);
    reveal(slid);
    assert(move_ok(h0, moves[j]));
    assert forall|x: int| #[trigger] listed(h.ssb, x) implies x < n by {
        reveal(landing);
        let k = choose|k: int| 0 <= k < j && (#[trigger] moves[k]).new_obj == x;
        assert(move_ok(h0, moves[k]));
        assert(dest_end(moves[k]) <= moves[j].dest);
    }
    assert(r.ssb.no_duplicates()) by {
        assert forall|x: int| 0 <= x < h.ssb.len() implies #[trigger] h.ssb[x] != n as usize by {
            assert(listed(h.ssb, h.ssb[x] as int));
        }
    }
    assert forall|k: int| 0 <= k < j + 1 implies landed(h0, r, #[trigger] moves[k]) && noted(
        r,
        moves[k].new_obj as int,
    ) by {
        if k < j {
            assert(dest_end(moves[k]) <= moves[j].dest);
            assert(move_ok(h0, moves[k]));
            lemma_landed_kept(h0, h, r, moves[k], m.dest as int);
            assert(noted(h, moves[k].new_obj as int));
        }
    }
    assert forall|x: int| #[trigger] listed(r.ssb, x) implies landing(moves, j + 1, x) by {
        reveal(landing);
        if listed(h.ssb, x) {
            let k = choose|k: int| 0 <= k < j && (#[trigger] moves[k]).new_obj == x;
            assert(moves[k].new_obj == x);
        } else {
            assert(moves[j].new_obj == x);
        }
    }
}

proof fn lemma_slide_all(h0: HeapView, h: HeapView, moves: Seq<Move>, j: int)
    requires
        h0.wf(),
        slides(h0, moves),
        slid(h0, h, moves, j),
        0 <= j <= moves.len(),
    ensures
        slid(h0, h.slide_all(moves, j), moves, moves.len() as int),
    decreases moves.len() - j,
{
    if j < moves.len() {
        lemma_slid_more(h0, h, moves, j);
        lemma_slide_all(h0, h.slide(moves[j]), moves, j + 1);
    }
}

// ---------------------------------------------------------------------------
// The marks cleared
// ---------------------------------------------------------------------------
/// What clearing the marks of `objs[i..]` does.
pub open spec fn unmarked(h: HeapView, r: HeapView, objs: Seq<usize>, i: int) -> bool {
    &&& r.wf()
    &&& r.layout() == h.layout()
    &&& r.from.alloc == h.from.alloc
    &&& r.to.alloc == h.to.alloc
    &&& r.old.alloc == h.old.alloc
    &&& r.ssb == h.ssb
    &&& forall|x: int| h.plausible(x) && !listed(objs, x) ==> #[trigger] r.read(x) == h.read(x)
    &&& forall|a: int| #[trigger] listed(objs, a) ==> same_words(h, r, a) && (r.read(a) == h.read(a)
        || r.read(a) & 1 == 0)
    &&& forall|k: int| i <= k < objs.len() ==> r.read((#[trigger] objs[k]) as int) & 1 == 0
}

#[verifier::rlimit(60)]
proof fn lemma_unmark_all(h: HeapView, objs: Seq<usize>, p: int, top: int, i: int)
    requires
        h.wf(),
        tiles(h, objs, p, top),
        0 <= i <= objs.len(),
    ensures
        unmarked(h, h.unmark_all(objs, i), objs, i),
    decreases objs.len() - i,
{
    if i < objs.len() {
        let o = objs[i] as int;
        assert(h.whole(objs[i] as int));
        assert(listed(objs, objs[i] as int));
        let g = h.hdr(o).gc_field();
        crate::heap::lemma_header_update(h.hdr(o), 0, 0);
        assert(g & !1u64 <= 255 && (g & !1u64) & 1 == 0 && (g & !1u64) & 0x84 == g & 0x84)
            by (bit_vector)
            requires
                g <= 255,
        ;
        crate::heap::lemma_header_update(h.hdr(o), 0, g & !1u64);
        lemma_low_bit(h.hdr(o).regc(g & !1u64).0);
        lemma_mark_bit(h, o);
        lemma_low_bit(h.read(o));
        let w = h.hdr(o).regc(g & !1u64).0;
        let h1 = if h.marked(o) {
            h.write(o, w)
        } else {
            h
        };
        lemma_reads_after_write(h, o, w);
        assert(h1.read(o) & 1 == 0) by {
            let x = h.read(o);
            assert((x & 1) == 0 || (x & 1) == 1) by (bit_vector);
        }
        assert forall|a: int| #[trigger] listed(objs, a) implies same_words(h, h1, a) by {
            lemma_within(h, objs, p, top, a);
            if h.has_over(a) {
                assert(h.plausible(a - 8));
                lemma_inside(h, objs, p, top, a, a - 8);
            }
            assert forall|k: int| 0 <= k < h.nslots(a) implies #[trigger] h1.slot(a, k) == h.slot(
                a,
                k,
            ) by {
                assert(h.plausible(a + 8 + 8 * k));
                lemma_inside(h, objs, p, top, a, a + 8 + 8 * k);
            }
        }
        assert forall|k: int| 0 <= k < objs.len() implies same_size(
            h,
            h1,
            (#[trigger] objs[k]) as int,
        ) by {
            assert(listed(objs, objs[k] as int));
        }
        lemma_tiles_kept(h, h1, objs, p, top);
        lemma_unmark_all(h1, objs, p, top, i + 1);
        let r = h1.unmark_all(objs, i + 1);
        lemma_unmark_join(h, h1, r, objs, p, top, i);
    } else {
        assert forall|a: int| #[trigger] listed(objs, a) implies same_words(h, h, a) by {}
    }
}

#[verifier::rlimit(60)]
proof fn lemma_unmark_join(
    h: HeapView,
    h1: HeapView,
    r: HeapView,
    objs: Seq<usize>,
    p: int,
    top: int,
    i: int,
)
    requires
        0 <= i < objs.len(),
        tiles(h, objs, p, top),
        h1.wf(),
        h1.layout() == h.layout(),
        h1.from.alloc == h.from.alloc,
        h1.to.alloc == h.to.alloc,
        h1.old.alloc == h.old.alloc,
        h1.ssb == h.ssb,
        forall|x: int| h.plausible(x) && x != objs[i] ==> #[trigger] h1.read(x) == h.read(x),
        forall|a: int| #[trigger] listed(objs, a) ==> same_words(h, h1, a),
        h1.read(objs[i] as int) & 1 == 0,
        unmarked(h1, r, objs, i + 1),
    ensures
        unmarked(h, r, objs, i),
{
    assert(listed(objs, objs[i] as int));
    assert forall|a: int| #[trigger] listed(objs, a) implies same_words(h, r, a) && (r.read(a)
        == h.read(a) || r.read(a) & 1 == 0) by {
        lemma_within(h, objs, p, top, a);
        assert(same_words(h, h1, a) && same_words(h1, r, a));
        lemma_same_words(h, h1, a);
        assert forall|k: int| 0 <= k < h.nslots(a) implies #[trigger] r.slot(a, k) == h.slot(a, k)
            by {
            assert(h1.slot(a, k) == h.slot(a, k));
            assert(r.slot(a, k) == h1.slot(a, k));
        }
        if a != objs[i] {
            assert(h1.read(a) == h.read(a));
        }
    }
    assert forall|x: int| h.plausible(x) && !listed(objs, x) implies #[trigger] r.read(x) == h.read(
        x,
    ) by {
        assert(h1.read(x) == h.read(x));
        assert(h1.plausible(x));
    }
    assert forall|k: int| i <= k < objs.len() implies r.read((#[trigger] objs[k]) as int) & 1 == 0 by {
        if k == i {
            assert(listed(objs, objs[k] as int));
            assert(r.read(objs[k] as int) == h1.read(objs[k] as int) || r.read(objs[k] as int) & 1
                == 0);
        }
    }
}

/// Cutting old space off at `top` leaves the words before it.
#[verifier::rlimit(60)]
proof fn lemma_cut(h: HeapView, top: int)
    requires
        h.wf(),
        0 <= top <= h.old.mem.len(),
    ensures
        ({
            let r = HeapView {
                old: crate::heap::SpaceView {
                    alloc: top,
                    ..h.old.filled(top, h.old.mem.len() - top, 0)
                },
                ..h
            };
            &&& r.wf()
            &&& r.layout() == h.layout()
            &&& r.old.top() == h.old.base + 8 * top
            &&& forall|x: int|
                h.plausible(x) && (h.tenured(x) ==> x < h.old.base + 8 * top) ==> #[trigger] r.read(
                    x,
                ) == h.read(x)
        }),
{
    reveal(HeapView::read);
    let r = HeapView {
        old: crate::heap::SpaceView {
            alloc: top,
            ..h.old.filled(top, h.old.mem.len() - top, 0)
        },
        ..h
    };
    assert forall|x: int|
        h.plausible(x) && (h.tenured(x) ==> x < h.old.base + 8 * top) implies #[trigger] r.read(x)
        == h.read(x) by {
        if !h.from.has(x) && !h.to.has(x) {
            let k = (x - h.old.base) / 8;
            assert(k < top);
            assert(r.old.mem[k] == h.old.mem[k]);
        }
    }
}

// ---------------------------------------------------------------------------
// All of a compaction
// ---------------------------------------------------------------------------
/// Where an object is after a compaction.
pub open spec fn new_place(b: Objects, fwd: Map<u64, u64>, a: int) -> int {
    if listed(b.old, a) {
        fwd[a as u64] as int
    } else {
        a
    }
}

/// The object at `a` before a compaction is at `n` after it, its pointers
/// rewritten.
pub open spec fn rewritten(h0: HeapView, a: int, r: HeapView, n: int, fwd: Map<u64, u64>) -> bool {
    &&& same_fields(h0.hdr(a), r.hdr(n))
    &&& r.read(n) & 1 == 0
    &&& h0.has_over(a) ==> r.read(n - 8) == h0.read(a - 8)
    &&& forall|i: int|
        0 <= i < h0.nslots(a) ==> #[trigger] r.slot(n, i) == if h0.hdr(a).byte_format() {
            h0.slot(a, i)
        } else {
            crate::compact::relocate(fwd, h0.slot(a, i))
        }
}

/// The objects of a marked heap, listed as before.
#[verifier::rlimit(60)]
proof fn lemma_marked_tiles(b: Objects, h: HeapView)
    requires
        b.sound(),
        marked_only(b, h),
    ensures
        h.wf(),
        h.layout() == b.heap.layout(),
        tiles(h, b.young, h.from.base, h.from.top()),
        tiles(h, b.old, h.old.base, h.old.top()),
        h.walk(h.from.base, h.from.top()) == Some(b.young),
        h.walk(h.old.base, h.old.top()) == Some(b.old),
        h.from.top() == b.heap.from.top(),
        h.old.top() == b.heap.old.top(),
        h.to.alloc == 0,
        forall|a: int| #[trigger] b.lists(a) ==> same_words(b.heap, h, a) && headed(h, a),
{
    reveal(marked_only);
    assert forall|a: int| #[trigger] b.lists(a) implies same_words(b.heap, h, a) && headed(h, a) by {
        lemma_marked_words(b, h, a);
        lemma_listed(b, a);
    }
    reveal(Objects::sound);
    assert forall|k: int| 0 <= k < b.young.len() implies same_size(
        b.heap,
        h,
        (#[trigger] b.young[k]) as int,
    ) && headed(h, b.young[k] as int) by {
        assert(listed(b.young, b.young[k] as int));
        assert(b.lists(b.young[k] as int));
    }
    assert forall|k: int| 0 <= k < b.old.len() implies same_size(
        b.heap,
        h,
        (#[trigger] b.old[k]) as int,
    ) && headed(h, b.old[k] as int) by {
        assert(listed(b.old, b.old[k] as int));
        assert(b.lists(b.old[k] as int));
    }
    lemma_tiles_kept(b.heap, h, b.young, h.from.base, h.from.top());
    lemma_tiles_kept(b.heap, h, b.old, h.old.base, h.old.top());
    lemma_walk(h, b.young, h.from.base, h.from.top());
    lemma_walk(h, b.old, h.old.base, h.old.top());
}

/// Both passes over a marked heap.
pub open spec fn both_fixed(b: Objects, h1: HeapView, h2: HeapView, fwd: Map<u64, u64>) -> bool {
    &&& h2.wf()
    &&& h2.layout() == h1.layout()
    &&& h2.from.alloc == h1.from.alloc
    &&& h2.to.alloc == h1.to.alloc
    &&& h2.old.alloc == h1.old.alloc
    &&& forall|a: int| #[trigger]
        b.lists(a) ==> h2.read(a) == h1.read(a) && (h1.has_over(a) ==> h2.read(a - 8) == h1.read(
            a - 8,
        ))
    &&& forall|a: int, i: int|
        b.lists(a) && 0 <= i < h1.nslots(a) ==> #[trigger] h2.slot(a, i) == if h1.marked(a)
            && !h1.hdr(a).byte_format() {
            crate::compact::relocate(fwd, h1.slot(a, i))
        } else {
            h1.slot(a, i)
        }
}

/// Slots of one list are no words of objects of another space.
proof fn lemma_not_among(h: HeapView, list: Seq<usize>, p: int, top: int, x: int)
    requires
        tiles(h, list, p, top),
        x < p || x >= top || listed(list, x),
    ensures
        !among_slots(h, list, 0, x),
{
    if among_slots(h, list, 0, x) {
        let k = choose|k: int|
            0 <= k < list.len() && (#[trigger] list[k]) < x < fin(h, list[k] as int);
        assert(listed(list, list[k] as int));
        lemma_within(h, list, p, top, list[k] as int);
        if listed(list, x) {
            lemma_inside(h, list, p, top, list[k] as int, x);
        }
    }
}

/// An overflow word is no slot.
proof fn lemma_over_not_among(h: HeapView, list: Seq<usize>, p: int, top: int, a: int)
    requires
        tiles(h, list, p, top),
        listed(list, a),
        h.has_over(a),
    ensures
        !among_slots(h, list, 0, a - 8),
{
    if among_slots(h, list, 0, a - 8) {
        let k = choose|k: int|
            0 <= k < list.len() && (#[trigger] list[k]) < a - 8 < fin(h, list[k] as int);
        let o = list[k] as int;
        assert(listed(list, o));
        lemma_within(h, list, p, top, o);
        if o != a {
            crate::graph::lemma_apart(h, list, p, top, o, a);
        }
    }
}

#[verifier::rlimit(60)]
#[verifier::spinoff_prover]
proof fn lemma_both_fixed(b: Objects, h1: HeapView, fwd: Map<u64, u64>)
    requires
        b.sound(),
        marked_only(b, h1),
    ensures
        h1.fix_objects(b.young, 0, fwd) matches Some(ha) && ha.fix_objects(
            b.old,
            0,
            fwd,
        ) matches Some(h2) && both_fixed(b, h1, h2, fwd),
{
    lemma_marked_tiles(b, h1);
    lemma_fix_objects(h1, b.young, h1.from.base, h1.from.top(), 0, fwd);
    if let Some(ha) = h1.fix_objects(b.young, 0, fwd) {
        // The first pass leaves old space alone.
        assert forall|x: int| h1.plausible(x) && h1.tenured(x) implies #[trigger] ha.read(x)
            == h1.read(x) by {
            lemma_not_among(h1, b.young, h1.from.base, h1.from.top(), x);
        }
        assert forall|k: int| 0 <= k < b.old.len() implies same_size(
            h1,
            ha,
            (#[trigger] b.old[k]) as int,
        ) by {
            assert(h1.whole(b.old[k] as int));
            assert(listed(b.old, b.old[k] as int));
            lemma_within(h1, b.old, h1.old.base, h1.old.top(), b.old[k] as int);
        }
        lemma_tiles_kept(h1, ha, b.old, h1.old.base, h1.old.top());
        lemma_fix_objects(ha, b.old, h1.old.base, h1.old.top(), 0, fwd);
        if let Some(h2) = ha.fix_objects(b.old, 0, fwd) {
            // The second pass leaves young space alone.
            assert forall|x: int| h1.plausible(x) && h1.young(x) implies #[trigger] h2.read(x)
                == ha.read(x) by {
                lemma_not_among(ha, b.old, h1.old.base, h1.old.top(), x);
                assert(ha.plausible(x));
            }
            assert forall|a: int| #[trigger] b.lists(a) implies h2.read(a) == h1.read(a) && (
            h1.has_over(a) ==> h2.read(a - 8) == h1.read(a - 8)) by {
                lemma_fixed_header(b, h1, ha, h2, a);
            }
            assert forall|a: int, i: int|
                b.lists(a) && 0 <= i < h1.nslots(a) implies #[trigger] h2.slot(a, i)
                == if h1.marked(a) && !h1.hdr(a).byte_format() {
                crate::compact::relocate(fwd, h1.slot(a, i))
            } else {
                h1.slot(a, i)
            } by {
                lemma_fixed_slot(b, h1, ha, h2, fwd, a, i);
            }
        }
    }
}

#[verifier::rlimit(60)]
proof fn lemma_fixed_header(b: Objects, h1: HeapView, ha: HeapView, h2: HeapView, a: int)
    requires
        h1.wf(),
        tiles(h1, b.young, h1.from.base, h1.from.top()),
        tiles(h1, b.old, h1.old.base, h1.old.top()),
        tiles(ha, b.old, h1.old.base, h1.old.top()),
        ha.layout() == h1.layout(),
        forall|x: int|
            h1.plausible(x) && !among_slots(h1, b.young, 0, x) ==> #[trigger] ha.read(x) == h1.read(
                x,
            ),
        forall|x: int|
            ha.plausible(x) && !among_slots(ha, b.old, 0, x) ==> #[trigger] h2.read(x) == ha.read(
                x,
            ),
        b.lists(a),
    ensures
        h2.read(a) == h1.read(a),
        h1.has_over(a) ==> h2.read(a - 8) == h1.read(a - 8),
{
    if listed(b.young, a) {
        lemma_within(h1, b.young, h1.from.base, h1.from.top(), a);
        lemma_not_among(h1, b.young, h1.from.base, h1.from.top(), a);
        lemma_not_among(ha, b.old, h1.old.base, h1.old.top(), a);
        if h1.has_over(a) {
            lemma_over_not_among(h1, b.young, h1.from.base, h1.from.top(), a);
            lemma_not_among(ha, b.old, h1.old.base, h1.old.top(), a - 8);
        }
    } else {
        lemma_within(h1, b.old, h1.old.base, h1.old.top(), a);
        lemma_not_among(h1, b.young, h1.from.base, h1.from.top(), a);
        lemma_not_among(ha, b.old, h1.old.base, h1.old.top(), a);
        if h1.has_over(a) {
            lemma_not_among(h1, b.young, h1.from.base, h1.from.top(), a - 8);
            assert(ha.read(a) == h1.read(a));
            lemma_over_not_among(ha, b.old, h1.old.base, h1.old.top(), a);
        }
    }
}

#[verifier::rlimit(60)]
#[verifier::spinoff_prover]
proof fn lemma_fixed_slot(
    b: Objects,
    h1: HeapView,
    ha: HeapView,
    h2: HeapView,
    fwd: Map<u64, u64>,
    a: int,
    i: int,
)
    requires
        h1.wf(),
        tiles(h1, b.young, h1.from.base, h1.from.top()),
        tiles(h1, b.old, h1.old.base, h1.old.top()),
        objects_fixed(h1, ha, b.young, 0, fwd),
        objects_fixed(ha, h2, b.old, 0, fwd),
        forall|x: int| h1.plausible(x) && h1.tenured(x) ==> #[trigger] ha.read(x) == h1.read(x),
        forall|x: int| h1.plausible(x) && h1.young(x) ==> #[trigger] h2.read(x) == ha.read(x),
        b.lists(a),
        0 <= i < h1.nslots(a),
    ensures
        h2.slot(a, i) == (if h1.marked(a) && !h1.hdr(a).byte_format() {
            crate::compact::relocate(fwd, h1.slot(a, i))
        } else {
            h1.slot(a, i)
        }),
{
    if listed(b.young, a) {
        lemma_within(h1, b.young, h1.from.base, h1.from.top(), a);
        let k = choose|k: int| 0 <= k < b.young.len() && #[trigger] b.young[k] == a;
        assert(ha.slot(b.young[k] as int, i) == if h1.marked(a) && !h1.hdr(a).byte_format() {
            crate::compact::relocate(fwd, h1.slot(a, i))
        } else {
            h1.slot(a, i)
        });
        assert(h1.plausible(a + 8 + 8 * i) && h1.young(a + 8 + 8 * i));
        assert(h2.slot(a, i) == ha.slot(a, i));
    } else {
        lemma_within(h1, b.old, h1.old.base, h1.old.top(), a);
        let k = choose|k: int| 0 <= k < b.old.len() && #[trigger] b.old[k] == a;
        assert(ha.read(a) == h1.read(a));
        if h1.has_over(a) {
            assert(ha.read(a - 8) == h1.read(a - 8));
        }
        assert(h1.plausible(a + 8 + 8 * i) && h1.tenured(a + 8 + 8 * i));
        assert(ha.slot(a, i) == h1.slot(a, i));
        assert(h2.slot(b.old[k] as int, i) == if ha.marked(a) && !ha.hdr(a).byte_format() {
            crate::compact::relocate(fwd, ha.slot(a, i))
        } else {
            ha.slot(a, i)
        });
    }
}

/// What a compaction does to a marked heap.
pub open spec fn compaction(
    b: Objects,
    h1: HeapView,
    r: HeapView,
    fwd: Map<u64, u64>,
    moves: Seq<Move>,
    end: int,
) -> bool {
    &&& plan_ok(h1, b.old, 0, h1.old.base, moves, end)
    &&& fwd == crate::compact::relocations(moves, moves.len() as int)
    &&& r.wf()
    &&& r.layout() == h1.layout()
    &&& r.from.alloc == h1.from.alloc
    &&& r.to.alloc == 0
    &&& r.old.top() == end
    &&& end <= h1.old.top()
    &&& forall|k: int|
        0 <= k < moves.len() ==> rewritten(
            b.heap,
            (#[trigger] moves[k]).obj as int,
            r,
            moves[k].new_obj as int,
            fwd,
        )
    &&& forall|a: int| #[trigger]
        listed(b.young, a) && h1.marked(a) ==> rewritten(b.heap, a, r, a, fwd)
    &&& forall|a: int| #[trigger]
        listed(b.young, a) ==> same_size(b.heap, r, a) && r.read(a) & 1 == 0 && headed(r, a)
    &&& forall|x: int| #[trigger] listed(r.ssb, x) ==> landing(moves, moves.len() as int, x)
    &&& forall|k: int| 0 <= k < moves.len() ==> noted(r, (#[trigger] moves[k]).new_obj as int)
    &&& r.ssb.no_duplicates()
}

/// One slide of a plan fits the heap whose pointers were rewritten.
proof fn lemma_slide_fits(
    b: Objects,
    h1: HeapView,
    h2: HeapView,
    fwd: Map<u64, u64>,
    moves: Seq<Move>,
    end: int,
    j: int,
)
    requires
        b.sound(),
        marked_only(b, h1),
        both_fixed(b, h1, h2, fwd),
        plan_ok(h1, b.old, 0, h1.old.base, moves, end),
        0 <= j < moves.len(),
    ensures
        listed(b.old, moves[j].obj as int),
        move_ok(h1, moves[j]),
        move_ok(h2, moves[j]),
        source_end(moves[j]) <= h1.old.top(),
{
    let a = moves[j].obj as int;
    assert(among(b.old, 0, a) && move_ok(h1, moves[j])) by {
        reveal(plan_ok);
    }
    assert(listed(b.old, a)) by {
        reveal(among);
    }
    lemma_marked_tiles(b, h1);
    lemma_within(h1, b.old, h1.old.base, h1.old.top(), a);
    assert(b.lists(a));
    assert(h2.read(a) == h1.read(a));
}

/// The slides of a plan fit the heap whose pointers were rewritten.
#[verifier::rlimit(60)]
#[verifier::spinoff_prover]
proof fn lemma_slides_fit(
    b: Objects,
    h1: HeapView,
    h2: HeapView,
    fwd: Map<u64, u64>,
    moves: Seq<Move>,
    end: int,
)
    requires
        b.sound(),
        marked_only(b, h1),
        both_fixed(b, h1, h2, fwd),
        plan_ok(h1, b.old, 0, h1.old.base, moves, end),
    ensures
        slides(h2, moves),
        end <= h1.old.top(),
        h1.old.base <= end,
        end % 8 == 0,
        forall|j: int|
            0 <= j < moves.len() ==> listed(b.old, (#[trigger] moves[j]).obj as int) && move_ok(
                h1,
                moves[j],
            ) && move_ok(h2, moves[j]) && source_end(moves[j]) <= h1.old.top(),
        forall|j: int, k: int|
            0 <= j < k < moves.len() ==> (#[trigger] moves[j]).obj != (#[trigger] moves[k]).obj,
        frontier(h1.old.base, moves, moves.len() as int) == end,
{
    lemma_marked_tiles(b, h1);
    assert forall|j: int| 0 <= j < moves.len() implies listed(
        b.old,
        (#[trigger] moves[j]).obj as int,
    ) && move_ok(h1, moves[j]) && move_ok(h2, moves[j]) && source_end(moves[j]) <= h1.old.top() by {
        lemma_slide_fits(b, h1, h2, fwd, moves, end, j);
    }
    lemma_distinct(b, h1, moves, end);
    reveal(plan_ok);
    if moves.len() > 0 {
        assert(move_ok(h1, moves[moves.len() - 1]));
        assert(moves[moves.len() - 1] == moves.last());
    }
}

/// A young object after the slides, the marks and the cut.
#[verifier::rlimit(60)]
proof fn lemma_young_done(
    b: Objects,
    h1: HeapView,
    h2: HeapView,
    h3: HeapView,
    h4: HeapView,
    r: HeapView,
    fwd: Map<u64, u64>,
    a: int,
)
    requires
        b.sound(),
        marked_only(b, h1),
        both_fixed(b, h1, h2, fwd),
        h3.layout() == h1.layout(),
        forall|x: int| h1.plausible(x) && h1.young(x) ==> #[trigger] h3.read(x) == h2.read(x),
        unmarked(h3, h4, b.young, 0),
        forall|x: int| h1.plausible(x) && h1.young(x) ==> #[trigger] r.read(x) == h4.read(x),
        listed(b.young, a),
    ensures
        same_size(b.heap, r, a),
        r.read(a) & 1 == 0,
        headed(r, a),
        h1.marked(a) ==> rewritten(b.heap, a, r, a, fwd),
{
    lemma_marked_tiles(b, h1);
    assert(b.lists(a));
    lemma_listed(b, a);
    lemma_within(h1, b.young, h1.from.base, h1.from.top(), a);
    lemma_same_words(b.heap, h1, a);
    assert(h2.read(a) == h1.read(a));
    assert(h3.read(a) == h2.read(a));
    assert(same_words(h3, h4, a));
    let k = choose|k: int| 0 <= k < b.young.len() && #[trigger] b.young[k] == a;
    assert(h4.read(b.young[k] as int) & 1 == 0);
    if b.heap.has_over(a) {
        assert(h1.plausible(a - 8) && h1.young(a - 8));
        assert(h3.read(a - 8) == h2.read(a - 8));
    }
    assert(h3.nslots(a) == b.heap.nslots(a));
    assert forall|i: int| 0 <= i < b.heap.nslots(a) && h1.marked(a) implies #[trigger] r.slot(a, i)
        == if b.heap.hdr(a).byte_format() {
        b.heap.slot(a, i)
    } else {
        crate::compact::relocate(fwd, b.heap.slot(a, i))
    } by {
        let x = a + 8 + 8 * i;
        assert(h1.plausible(x) && h1.young(x));
        assert(r.slot(a, i) == h4.slot(a, i));
        assert(h4.slot(a, i) == h3.slot(a, i));
        assert(h3.slot(a, i) == h2.slot(a, i));
        assert(h1.slot(a, i) == b.heap.slot(a, i));
    }
}

/// A slid object after the marks and the cut.
#[verifier::rlimit(60)]
proof fn lemma_old_done(
    b: Objects,
    h1: HeapView,
    h2: HeapView,
    h3: HeapView,
    r: HeapView,
    fwd: Map<u64, u64>,
    m: Move,
    end: int,
)
    requires
        b.sound(),
        marked_only(b, h1),
        both_fixed(b, h1, h2, fwd),
        h3.layout() == h1.layout(),
        r.layout() == h1.layout(),
        h1.wf(),
        move_ok(h1, m),
        h1.old.base <= m.dest,
        dest_end(m) <= end,
        source_end(m) <= h1.old.top(),
        listed(b.old, m.obj as int),
        landed(h2, h3, m),
        forall|x: int|
            h1.plausible(x) && h1.tenured(x) && x < end ==> #[trigger] r.read(x) == h3.read(x),
    ensures
        rewritten(b.heap, m.obj as int, r, m.new_obj as int, fwd),
        r.points_young(m.new_obj as int) == h3.points_young(m.new_obj as int),
        r.is_remembered(m.new_obj as int) == h3.is_remembered(m.new_obj as int),
{
    let a = m.obj as int;
    let n = m.new_obj as int;
    lemma_marked_tiles(b, h1);
    assert(b.lists(a));
    lemma_same_words(b.heap, h1, a);
    assert(n % 8 == 0);
    assert(h1.plausible(n) && h1.tenured(n));
    assert(r.read(n) == h3.read(n));
    assert(h2.read(a) == h1.read(a));
    assert(h2.nslots(a) == h1.nslots(a));
    if b.heap.has_over(a) {
        assert(h1.plausible(n - 8) && h1.tenured(n - 8));
        assert(r.read(n - 8) == h3.read(n - 8));
    }
    assert(h3.nslots(n) == h1.nslots(a));
    assert(h3.whole(n));
    assert forall|i: int| 0 <= i < h3.nslots(n) implies #[trigger] r.slot(n, i) == h3.slot(n, i) by {
        let x = n + 8 + 8 * i;
        assert(h1.plausible(x) && h1.tenured(x));
    }
    assert forall|i: int| 0 <= i < b.heap.nslots(a) implies #[trigger] r.slot(n, i)
        == if b.heap.hdr(a).byte_format() {
        b.heap.slot(a, i)
    } else {
        crate::compact::relocate(fwd, b.heap.slot(a, i))
    } by {
        assert(r.slot(n, i) == h3.slot(n, i));
        assert(h3.slot(n, i) == h2.slot(a, i));
        assert(h1.slot(a, i) == b.heap.slot(a, i));
    }
    lemma_young_alike(h3, r, n);
}

#[verifier::rlimit(60)]
#[verifier::spinoff_prover]
pub(crate) proof fn lemma_compacted(b: Objects, h1: HeapView) -> (found: (Seq<Move>, int))
    requires
        b.sound(),
        marked_only(b, h1),
    ensures
        h1.compacted() matches Some((r, fwd)) && compaction(b, h1, r, fwd, found.0, found.1)
            && h1.plan(b.old, 0, h1.old.base) == Some(found),
{
    lemma_marked_tiles(b, h1);
    lemma_plan(h1, b.old, h1.old.base, h1.old.top(), 0, h1.old.base);
    lemma_plan_works(h1, b.old, 0, h1.old.base);
    match h1.plan(b.old, 0, h1.old.base) {
        None => (Seq::empty(), 0),
        Some((moves, end)) => {
            let fwd = crate::compact::relocations(moves, moves.len() as int);
            lemma_both_fixed(b, h1, fwd);
            if let Some(ha) = h1.fix_objects(b.young, 0, fwd) {
                if let Some(h2) = ha.fix_objects(b.old, 0, fwd) {
                    let h2e = HeapView { ssb: Seq::empty(), ..h2 };
                    assert(forall|x: int| #[trigger] h2e.read(x) == h2.read(x)) by {
                        reveal(HeapView::read);
                    }
                    assert(both_fixed(b, h1, h2e, fwd)) by {
                        assert forall|a: int, i: int|
                            b.lists(a) && 0 <= i < h1.nslots(a) implies #[trigger] h2e.slot(a, i)
                            == if h1.marked(a) && !h1.hdr(a).byte_format() {
                            crate::compact::relocate(fwd, h1.slot(a, i))
                        } else {
                            h1.slot(a, i)
                        } by {
                            assert(h2e.slot(a, i) == h2.slot(a, i));
                        }
                    }
                    lemma_slides_fit(b, h1, h2e, fwd, moves, end);
                    assert(slid(h2e, h2e, moves, 0)) by {
                        reveal(slid);
                    }
                    lemma_slide_all(h2e, h2e, moves, 0);
                    let h3 = h2e.slide_all(moves, 0);
                    lemma_compaction_end(b, h1, h2e, h3, fwd, moves, end);
                }
            }
            (moves, end)
        },
    }
}

#[verifier::rlimit(60)]
#[verifier::spinoff_prover]
proof fn lemma_compaction_end(
    b: Objects,
    h1: HeapView,
    h2: HeapView,
    h3: HeapView,
    fwd: Map<u64, u64>,
    moves: Seq<Move>,
    end: int,
)
    requires
        b.sound(),
        marked_only(b, h1),
        both_fixed(b, h1, h2, fwd),
        plan_ok(h1, b.old, 0, h1.old.base, moves, end),
        fwd == crate::compact::relocations(moves, moves.len() as int),
        slid(h2, h3, moves, moves.len() as int),
    ensures
        ({
            let h4 = h3.unmark_all(b.young, 0);
            let top = (end - h1.old.base) / 8;
            let old1 = crate::heap::SpaceView {
                alloc: top,
                ..h4.old.filled(top, h4.old.mem.len() - top, 0)
            };
            compaction(b, h1, HeapView { old: old1, ..h4 }, fwd, moves, end)
        }),
{
    lemma_marked_tiles(b, h1);
    lemma_slides_fit(b, h1, h2, fwd, moves, end);
    assert(h3.wf() && h3.layout() == h1.layout() && h3.from.alloc == h1.from.alloc && h3.to.alloc
        == h1.to.alloc && h3.old.alloc == h1.old.alloc) by {
        reveal(slid);
    }
    assert forall|x: int| h1.plausible(x) && h1.young(x) implies #[trigger] h3.read(x) == h2.read(x)
        by {
        reveal(slid);
        assert(h2.plausible(x));
    }
    assert forall|k: int| 0 <= k < b.young.len() implies same_size(
        h1,
        h3,
        (#[trigger] b.young[k]) as int,
    ) by {
        let a = b.young[k] as int;
        assert(listed(b.young, a));
        assert(b.lists(a));
        lemma_within(h1, b.young, h1.from.base, h1.from.top(), a);
        assert(h2.read(a) == h1.read(a));
    }
    lemma_tiles_kept(h1, h3, b.young, h1.from.base, h1.from.top());
    lemma_unmark_all(h3, b.young, h1.from.base, h1.from.top(), 0);
    let h4 = h3.unmark_all(b.young, 0);
    let top = (end - h1.old.base) / 8;
    lemma_cut(h4, top);
    let r = HeapView {
        old: crate::heap::SpaceView { alloc: top, ..h4.old.filled(top, h4.old.mem.len() - top, 0) },
        ..h4
    };
    assert(8 * top == end - h1.old.base);
    assert forall|x: int| h1.plausible(x) && h1.young(x) implies #[trigger] r.read(x) == h4.read(x)
        by {
        assert(h4.plausible(x));
    }
    assert forall|x: int| h1.plausible(x) && h1.tenured(x) && x < end implies #[trigger] r.read(x)
        == h3.read(x) by {
        assert(h4.plausible(x));
        if listed(b.young, x) {
            lemma_within(h1, b.young, h1.from.base, h1.from.top(), x);
        }
        assert(h3.plausible(x));
        assert(h4.read(x) == h3.read(x));
    }
    assert forall|a: int| #[trigger] listed(b.young, a) implies same_size(b.heap, r, a) && r.read(a)
        & 1 == 0 && headed(r, a) && (h1.marked(a) ==> rewritten(b.heap, a, r, a, fwd)) by {
        lemma_young_done(b, h1, h2, h3, h4, r, fwd, a);
    }
    assert forall|k: int| 0 <= k < moves.len() implies rewritten(
        b.heap,
        (#[trigger] moves[k]).obj as int,
        r,
        moves[k].new_obj as int,
        fwd,
    ) && r.points_young(moves[k].new_obj as int) == h3.points_young(moves[k].new_obj as int)
        && r.is_remembered(moves[k].new_obj as int) == h3.is_remembered(
        moves[k].new_obj as int,
    ) by {
        assert(landed(h2, h3, moves[k])) by {
            reveal(slid);
        }
        assert(dest_end(moves[k]) <= end && h1.old.base <= moves[k].dest) by {
            reveal(plan_ok);
        }
        lemma_old_done(b, h1, h2, h3, r, fwd, moves[k], end);
    }
    assert(r.ssb == h3.ssb);
    assert forall|x: int| #[trigger] listed(r.ssb, x) implies landing(
        moves,
        moves.len() as int,
        x,
    ) by {
        reveal(slid);
    }
    assert(r.ssb.no_duplicates()) by {
        reveal(slid);
    }
    assert forall|k: int| 0 <= k < moves.len() implies noted(
        r,
        (#[trigger] moves[k]).new_obj as int,
    ) by {
        reveal(slid);
        assert(noted(h3, moves[k].new_obj as int));
    }
}

// ---------------------------------------------------------------------------
// The law
// ---------------------------------------------------------------------------
/// Everything the machine reaches is marked, and nothing else changes.
pub open spec fn all_marked(b: Objects, v: VmView, h1: HeapView) -> bool {
    &&& marked_only(b, h1)
    &&& forall|a: int| #[trigger]
        b.lists(a) && h1.marked(a) ==> b.has(a) && traced(b, h1, a)
    &&& forall|k: int|
        0 <= k < v.roots().len() ==> target_marked(b, h1, #[trigger] v.roots()[k])
}

pub(crate) proof fn lemma_marked_heap(v: VmView, young: Seq<usize>, old: Seq<usize>, live: Set<int>)
    requires
        v.sound(young, old, live),
    ensures
        v.marked_heap() matches Some(h1) && all_marked(v.objects(young, old, live), v, h1),
        v.objects(young, old, live).sound(),
        forall|k: int|
            0 <= k < v.roots().len() ==> v.objects(young, old, live).known(#[trigger] v.roots()[k]),
{
    lemma_marked_within(v, young, old, live, Set::full());
}

/// What is marked lies in every set that holds all that is reached.
#[verifier::rlimit(60)]
proof fn lemma_marked_within(
    v: VmView,
    young: Seq<usize>,
    old: Seq<usize>,
    live: Set<int>,
    t: Set<int>,
)
    requires
        v.sound(young, old, live),
        holds_reached(v, t),
    ensures
        v.marked_heap() matches Some(h1) && all_marked(v.objects(young, old, live), v, h1)
            && forall|a: int| #[trigger]
            v.objects(young, old, live).lists(a) && h1.marked(a) ==> t.contains(a),
        v.objects(young, old, live).sound(),
        forall|k: int|
            0 <= k < v.roots().len() ==> v.objects(young, old, live).known(#[trigger] v.roots()[k]),
{
    let b = v.objects(young, old, live);
    assert(b.sound() && forall|k: int|
        0 <= k < v.roots().len() ==> b.known(#[trigger] v.roots()[k])) by {
        reveal(VmView::sound);
    }
    let s = MarkView { heap: v.heap, stack: Seq::empty() };
    assert(marked_only(b, s.heap)) by {
        reveal(marked_only);
        reveal(Objects::sound);
    }
    assert(marking(b, s, Set::empty(), t)) by {
        reveal(marking);
        assert forall|a: int| #[trigger] b.lists(a) implies !s.heap.marked(a) by {
            lemma_listed(b, a);
            lemma_mark_bit(s.heap, a);
        }
    }
    lemma_mark_all_keeps(b, s, v.roots(), 0, t);
    let s1 = s.mark_all(v.roots(), 0);
    lemma_mark_drain_keeps(b, s1, t);
    if let Some(s2) = s1.drain() {
        assert forall|k: int| 0 <= k < v.roots().len() implies target_marked(
            b,
            s2.heap,
            #[trigger] v.roots()[k],
        ) by {
            let x = v.roots()[k];
            assert(target_marked(b, s1.heap, x));
            if x.tagged_ptr() && b.heap.plausible(x.addr()) {
                assert(b.lists(x.addr()));
            }
        }
        assert forall|a: int| #[trigger] b.lists(a) && s2.heap.marked(a) implies b.has(a)
            && t.contains(a) && traced(b, s2.heap, a) by {
            reveal(marking);
        }
    }
}

/// Where the marked objects are after a compaction.
pub open spec fn slid_places(b: Objects, h1: HeapView, fwd: Map<u64, u64>) -> Map<int, int> {
    Map::new(|a: int| b.lists(a) && h1.marked(a), |a: int| new_place(b, fwd, a))
}

/// A marked old object is moved by one of the slides.
proof fn lemma_moved_by(
    b: Objects,
    h1: HeapView,
    r: HeapView,
    fwd: Map<u64, u64>,
    moves: Seq<Move>,
    end: int,
    a: int,
) -> (k: int)
    requires
        b.sound(),
        marked_only(b, h1),
        compaction(b, h1, r, fwd, moves, end),
        listed(b.old, a),
        h1.marked(a),
    ensures
        0 <= k < moves.len(),
        moves[k].obj == a,
        fwd.dom().contains(a as u64),
        fwd[a as u64] == moves[k].new_obj,
        (a as u64) as int == a,
{
    lemma_marked_tiles(b, h1);
    lemma_distinct(b, h1, moves, end);
    lemma_relocations(moves, moves.len() as int);
    lemma_within(h1, b.old, h1.old.base, h1.old.top(), a);
    let x = choose|x: int| 0 <= x < b.old.len() && #[trigger] b.old[x] == a;
    assert(has_move(moves, b.old[x] as int)) by {
        reveal(plan_ok);
    }
    reveal(has_move);
    let k = choose|k: int| 0 <= k < moves.len() && (#[trigger] moves[k]).obj == a;
    assert(moves[k].obj == a);
    k
}

/// No object is moved twice, and each is an old one.
proof fn lemma_distinct(b: Objects, h1: HeapView, moves: Seq<Move>, end: int)
    requires
        plan_ok(h1, b.old, 0, h1.old.base, moves, end),
    ensures
        forall|j: int, k: int|
            0 <= j < k < moves.len() ==> (#[trigger] moves[j]).obj != (#[trigger] moves[k]).obj,
        forall|j: int| 0 <= j < moves.len() ==> listed(b.old, (#[trigger] moves[j]).obj as int),
        forall|j: int, k: int|
            0 <= j < k < moves.len() ==> (#[trigger] moves[j]).new_obj < (
            #[trigger] moves[k]).new_obj,
{
    reveal(plan_ok);
    assert forall|j: int| 0 <= j < moves.len() implies listed(
        b.old,
        (#[trigger] moves[j]).obj as int,
    ) by {
        assert(among(b.old, 0, moves[j].obj as int));
        reveal(among);
    }
    assert forall|j: int, k: int| 0 <= j < k < moves.len() implies (#[trigger] moves[j]).obj != (
    #[trigger] moves[k]).obj && moves[j].new_obj < moves[k].new_obj by {
        assert(source_end(moves[j]) <= moves[k].start);
        assert(dest_end(moves[j]) <= moves[k].dest);
        assert(move_ok(h1, moves[j]) && move_ok(h1, moves[k]));
    }
}

/// A rewritten value leads where the value led.
#[verifier::rlimit(60)]
proof fn lemma_relocated_follows(
    b: Objects,
    h1: HeapView,
    r: HeapView,
    fwd: Map<u64, u64>,
    moves: Seq<Move>,
    end: int,
    v: Value,
)
    requires
        b.sound(),
        marked_only(b, h1),
        compaction(b, h1, r, fwd, moves, end),
        b.known(v),
        target_marked(b, h1, v),
    ensures
        follows(
            b.heap,
            slid_places(b, h1, fwd),
            v,
            crate::compact::relocate(fwd, v),
        ),
{
    lemma_marked_tiles(b, h1);
    lemma_distinct(b, h1, moves, end);
    lemma_relocations(moves, moves.len() as int);
    let a = v.addr();
    if fwd.dom().contains(v.0) {
        let j = choose|j: int| 0 <= j < moves.len() && (#[trigger] moves[j]).obj == v.0;
        assert(listed(b.old, moves[j].obj as int));
        lemma_listed(b, a);
    }
    if v.tagged_ptr() && b.heap.plausible(a) {
        assert(b.lists(a));
        if listed(b.old, a) {
            let k = lemma_moved_by(b, h1, r, fwd, moves, end, a);
        } else {
            lemma_listed(b, a);
        }
    }
}

/// Where an object stands after a compaction.
#[verifier::rlimit(60)]
proof fn lemma_stands_after(
    b: Objects,
    h1: HeapView,
    r: HeapView,
    fwd: Map<u64, u64>,
    moves: Seq<Move>,
    end: int,
    a: int,
)
    requires
        b.sound(),
        marked_only(b, h1),
        compaction(b, h1, r, fwd, moves, end),
        b.lists(a),
        h1.marked(a),
    ensures
        rewritten(b.heap, a, r, new_place(b, fwd, a), fwd),
        r.whole(new_place(b, fwd, a)),
        r.nslots(new_place(b, fwd, a)) == b.heap.nslots(a),
        listed(b.old, a) <==> r.tenured(new_place(b, fwd, a)),
{
    lemma_marked_tiles(b, h1);
    lemma_listed(b, a);
    lemma_same_words(b.heap, h1, a);
    if listed(b.old, a) {
        let k = lemma_moved_by(b, h1, r, fwd, moves, end, a);
        let m = moves[k];
        assert(move_ok(h1, moves[k]) && dest_end(m) <= end && h1.old.base <= m.dest) by {
            reveal(plan_ok);
        }
        assert(rewritten(b.heap, moves[k].obj as int, r, moves[k].new_obj as int, fwd));
        let n = m.new_obj as int;
        assert(n % 8 == 0);
        assert(r.nslots(n) == b.heap.nslots(a));
    } else {
        assert(rewritten(b.heap, a, r, a, fwd));
        assert(r.nslots(a) == b.heap.nslots(a));
    }
}

/// The old objects after a compaction, in address order.
pub open spec fn landings(moves: Seq<Move>) -> Seq<usize> {
    Seq::new(moves.len(), |k: int| moves[k].new_obj as usize)
}

#[verifier::rlimit(60)]
#[verifier::spinoff_prover]
proof fn lemma_landings_tile(
    b: Objects,
    h1: HeapView,
    r: HeapView,
    fwd: Map<u64, u64>,
    moves: Seq<Move>,
    end: int,
)
    requires
        b.sound(),
        marked_only(b, h1),
        compaction(b, h1, r, fwd, moves, end),
    ensures
        tiles(r, landings(moves), r.old.base, r.old.top()),
        forall|k: int|
            0 <= k < moves.len() ==> listed(landings(moves), (#[trigger] moves[k]).new_obj as int)
                && landings(moves)[k] == moves[k].new_obj,
{
    let objs = landings(moves);
    lemma_marked_tiles(b, h1);
    lemma_distinct(b, h1, moves, end);
    lemma_relocations(moves, moves.len() as int);
    assert forall|k: int| 0 <= k < moves.len() implies landing_ok(h1, r, #[trigger] moves[k], end)
        && objs[k] == moves[k].new_obj by {
        let a = moves[k].obj as int;
        assert(listed(b.old, moves[k].obj as int));
        assert(b.lists(a));
        lemma_listed(b, a);
        lemma_same_words(b.heap, h1, a);
        assert(move_ok(h1, moves[k]) && dest_end(moves[k]) <= end && h1.old.base
            <= moves[k].dest) by {
            reveal(plan_ok);
        }
        lemma_stands_after(b, h1, r, fwd, moves, end, a);
        let x = lemma_moved_by(b, h1, r, fwd, moves, end, a);
        assert(moves[x].obj == moves[k].obj);
        assert(x == k);
        assert(rewritten(b.heap, moves[k].obj as int, r, moves[k].new_obj as int, fwd));
    }
    assert forall|k: int| 0 <= k < moves.len() implies listed(
        objs,
        (#[trigger] moves[k]).new_obj as int,
    ) by {
        assert(objs[k] == moves[k].new_obj);
    }
    reveal(plan_ok);
    if moves.len() > 0 {
        assert(landing_ok(h1, r, moves[0], end));
        assert(landing_ok(h1, r, moves[moves.len() - 1], end));
        assert(objs.last() == moves.last().new_obj);
    }
    assert forall|i: int| 0 <= i < objs.len() implies r.whole((#[trigger] objs[i]) as int)
        && r.old.base <= r.storage_start(objs[i] as int) && fin(r, objs[i] as int) <= r.old.top() by {
        assert(landing_ok(h1, r, moves[i], end));
    }
    assert forall|i: int, j: int| 0 <= i < j < objs.len() implies fin(
        r,
        (#[trigger] objs[i]) as int,
    ) <= r.storage_start((#[trigger] objs[j]) as int) by {
        assert(landing_ok(h1, r, moves[i], end) && landing_ok(h1, r, moves[j], end));
    }
    assert forall|i: int, j: int|
        0 <= i < objs.len() && 0 <= j < objs.len() && j == i + 1 implies fin(
        r,
        (#[trigger] objs[i]) as int,
    ) == r.storage_start((#[trigger] objs[j]) as int) by {
        assert(landing_ok(h1, r, moves[i], end) && landing_ok(h1, r, moves[j], end));
    }
}

/// A slide's object fills its destination.
pub open spec fn landing_ok(h1: HeapView, r: HeapView, m: Move, end: int) -> bool {
    let n = m.new_obj as int;
    &&& r.whole(n)
    &&& n <= usize::MAX
    &&& r.storage_start(n) == m.dest
    &&& fin(r, n) == dest_end(m)
    &&& dest_end(m) <= end
    &&& h1.old.base <= m.dest
}

/// What leads somewhere after a compaction leads to an object that counts.
#[verifier::rlimit(60)]
proof fn lemma_relocated_known(
    b: Objects,
    h1: HeapView,
    r: HeapView,
    fwd: Map<u64, u64>,
    moves: Seq<Move>,
    end: int,
    v: Value,
)
    requires
        b.sound(),
        marked_only(b, h1),
        compaction(b, h1, r, fwd, moves, end),
        b.known(v),
        target_marked(b, h1, v),
    ensures
        after(b, h1, r, moves).known(crate::compact::relocate(fwd, v)),
{
    lemma_marked_tiles(b, h1);
    lemma_landings_tile(b, h1, r, fwd, moves, end);
    lemma_relocated_follows(b, h1, r, fwd, moves, end, v);
    let w = crate::compact::relocate(fwd, v);
    if w.tagged_ptr() && r.plausible(w.addr()) {
        assert(b.heap.plausible(w.addr()));
        let a = v.addr();
        if v.tagged_ptr() && b.heap.plausible(a) {
            assert(b.lists(a) && b.has(a));
            if listed(b.old, a) {
                let k = lemma_moved_by(b, h1, r, fwd, moves, end, a);
                assert(listed(landings(moves), moves[k].new_obj as int));
            }
        }
    }
}

/// The heap and its objects after a compaction.
pub open spec fn after(b: Objects, h1: HeapView, r: HeapView, moves: Seq<Move>) -> Objects {
    Objects {
        heap: r,
        young: b.young,
        old: landings(moves),
        live: Set::new(|a: int| h1.marked(a)),
    }
}

/// Which object stands at an address after a compaction.
#[verifier::rlimit(60)]
proof fn lemma_who(
    b: Objects,
    h1: HeapView,
    r: HeapView,
    fwd: Map<u64, u64>,
    moves: Seq<Move>,
    end: int,
    n: int,
) -> (a: int)
    requires
        b.sound(),
        marked_only(b, h1),
        compaction(b, h1, r, fwd, moves, end),
        after(b, h1, r, moves).has(n),
    ensures
        b.lists(a),
        h1.marked(a),
        new_place(b, fwd, a) == n,
        rewritten(b.heap, a, r, n, fwd),
        r.nslots(n) == b.heap.nslots(a),
{
    let b1 = after(b, h1, r, moves);
    lemma_marked_tiles(b, h1);
    lemma_distinct(b, h1, moves, end);
    lemma_relocations(moves, moves.len() as int);
    lemma_landings_tile(b, h1, r, fwd, moves, end);
    if listed(landings(moves), n) {
        let k = choose|k: int| 0 <= k < landings(moves).len() && #[trigger] landings(moves)[k] == n;
        let a = moves[k].obj as int;
        assert(listed(b.old, moves[k].obj as int));
        assert(move_ok(h1, moves[k])) by {
            reveal(plan_ok);
        }
        assert(landings(moves)[k] == moves[k].new_obj);
        assert(fwd[moves[k].obj] == moves[k].new_obj);
        lemma_stands_after(b, h1, r, fwd, moves, end, a);
        a
    } else {
        lemma_listed(b, n);
        lemma_stands_after(b, h1, r, fwd, moves, end, n);
        n
    }
}

#[verifier::rlimit(60)]
#[verifier::spinoff_prover]
proof fn lemma_after_sound(
    b: Objects,
    v: VmView,
    h1: HeapView,
    r: HeapView,
    fwd: Map<u64, u64>,
    moves: Seq<Move>,
    end: int,
)
    requires
        b.sound(),
        all_marked(b, v, h1),
        compaction(b, h1, r, fwd, moves, end),
    ensures
        after(b, h1, r, moves).sound(),
{
    let b1 = after(b, h1, r, moves);
    lemma_marked_tiles(b, h1);
    lemma_landings_tile(b, h1, r, fwd, moves, end);
    assert(tiles(r, b.young, r.from.base, r.from.top())) by {
        assert(tiles(b.heap, b.young, b.heap.from.base, b.heap.from.top())) by {
            reveal(Objects::sound);
        }
        assert forall|k: int| 0 <= k < b.young.len() implies same_size(
            b.heap,
            r,
            (#[trigger] b.young[k]) as int,
        ) by {
            assert(listed(b.young, b.young[k] as int));
        }
        lemma_tiles_kept(b.heap, r, b.young, b.heap.from.base, b.heap.from.top());
    }
    assert forall|n: int| #[trigger] b1.lists(n) implies r.read(n) & 1 == 0 && headed(r, n) by {
        if listed(b1.old, n) {
            assert(b1.has(n));
            let a = lemma_who(b, h1, r, fwd, moves, end, n);
            lemma_listed(b, a);
        }
    }
    assert forall|n: int, i: int|
        b1.has(n) && !r.hdr(n).byte_format() && 0 <= i < r.nslots(n) implies b1.known(
        #[trigger] r.slot(n, i),
    ) by {
        let a = lemma_who(b, h1, r, fwd, moves, end, n);
        let x = b.heap.slot(a, i);
        assert(b.has(a) && traced(b, h1, a));
        assert(target_marked(b, h1, x));
        assert(b.known(x)) by {
            reveal(Objects::sound);
        }
        lemma_relocated_known(b, h1, r, fwd, moves, end, x);
    }
    reveal(Objects::sound);
}

/// Old objects kept their order, and those with nothing to reclaim below
/// them kept their places.
pub open spec fn packed(objs: Seq<usize>, m: Map<int, int>) -> bool {
    &&& forall|i: int, j: int|
        0 <= i < j < objs.len() && m.dom().contains(#[trigger] objs[i] as int) && m.dom().contains(
            #[trigger] objs[j] as int,
        ) ==> m[objs[i] as int] < m[objs[j] as int]
    &&& forall|n: int|
        0 <= n <= objs.len() && #[trigger] all_kept(objs, n, m) ==> forall|i: int|
            0 <= i < n ==> m[#[trigger] objs[i] as int] == objs[i]
}

/// The bytes that objects take, overflow words with them.
pub open spec fn footprints(h: HeapView, objs: Seq<usize>) -> int
    decreases objs.len(),
{
    if objs.len() == 0 {
        0
    } else {
        footprints(h, objs.drop_last()) + h.footprint(objs.last() as int)
    }
}

/// Objects that fill a region take as many bytes as it has.
#[verifier::rlimit(60)]
pub proof fn lemma_footprints(h: HeapView, objs: Seq<usize>, p: int, top: int)
    requires
        tiles(h, objs, p, top),
    ensures
        p + footprints(h, objs) == top,
    decreases objs.len(),
{
    if objs.len() > 0 {
        let t = objs.drop_last();
        let o = objs.last() as int;
        assert(objs[objs.len() - 1] == objs.last());
        if t.len() > 0 {
            assert(t[0] == objs[0]);
            assert(t.last() == objs[objs.len() - 2]);
            assert(fin(h, objs[objs.len() - 2] as int) == h.storage_start(objs[objs.len() - 1] as int));
        }
        assert(tiles(h, t, p, h.storage_start(o))) by {
            assert forall|i: int| 0 <= i < t.len() implies h.whole((#[trigger] t[i]) as int) && p
                <= h.storage_start(t[i] as int) && fin(h, t[i] as int) <= h.storage_start(o) by {
                assert(t[i] == objs[i]);
                assert(fin(h, objs[i] as int) <= h.storage_start(objs[objs.len() - 1] as int));
            }
            assert forall|i: int, j: int| 0 <= i < j < t.len() implies fin(
                h,
                (#[trigger] t[i]) as int,
            ) <= h.storage_start((#[trigger] t[j]) as int) by {
                assert(t[i] == objs[i] && t[j] == objs[j]);
            }
            assert forall|i: int, j: int|
                0 <= i < t.len() && 0 <= j < t.len() && j == i + 1 implies fin(
                h,
                (#[trigger] t[i]) as int,
            ) == h.storage_start((#[trigger] t[j]) as int) by {
                assert(t[i] == objs[i] && t[j] == objs[j]);
            }
        }
        lemma_footprints(h, t, p, h.storage_start(o));
    }
}

/// What an old collection does, with where it moved objects and which objects
/// there are after it: the object graph is kept, only what the machine's
/// references reach is kept, old objects keep their order and move only over
/// what is reclaimed, the machine is sound again, there are no other old
/// objects than those kept, they fill old space without a gap (the bytes in
/// use are the sum of their sizes), and those that point young are
/// remembered.
pub open spec fn compaction_keeps(
    v: VmView,
    old: Seq<usize>,
    w: VmView,
    m: Map<int, int>,
    young1: Seq<usize>,
    old1: Seq<usize>,
    live1: Set<int>,
) -> bool {
    &&& same_graph(v, w, m)
    &&& only_reached(v, m)
    &&& packed(old, m)
    &&& w.sound(young1, old1, live1)
    &&& came_from(m, old1)
    &&& lands_in(m, young1, old1)
    &&& tiles(w.heap, old1, w.heap.old.base, w.heap.old.top())
    &&& 8 * w.heap.old.alloc == footprints(w.heap, old1)
    &&& remembers(w.heap, old1)
    &&& w.heap.old.base == v.heap.old.base && w.heap.old.limit() == v.heap.old.limit()
    &&& w.heap.words() == v.heap.words()
}

/// The first `n` objects are kept.
pub open spec fn all_kept(objs: Seq<usize>, n: int, m: Map<int, int>) -> bool {
    forall|i: int| 0 <= i < n ==> m.dom().contains(#[trigger] objs[i] as int)
}

/// Marked objects that lie close together from where the plan starts do not
/// move.
#[verifier::rlimit(60)]
proof fn lemma_plan_stays(h: HeapView, live: Seq<usize>, p: int, top: int, i: int, n: int)
    requires
        h.wf(),
        tiles(h, live, p, top),
        0 <= i <= n <= live.len(),
        0 <= p,
        forall|k: int| i <= k < n ==> h.marked((#[trigger] live[k]) as int),
    ensures
        i < n ==> (h.plan(live, i, h.storage_start(live[i] as int)) matches Some((moves, end))
            ==> moves.len() >= n - i && forall|k: int|
            0 <= k < n - i ==> (#[trigger] moves[k]).obj == live[i + k] && moves[k].new_obj
                == live[i + k]),
    decreases n - i,
{
    if i < n {
        let o = live[i] as int;
        let next = h.storage_start(o);
        assert(h.whole(o));
        assert(h.marked(live[i] as int));
        if h.plausible(o) && h.movable(o, next) {
            if i + 1 < n {
                lemma_plan_stays(h, live, p, top, i + 1, n);
                assert(fin(h, live[i] as int) == h.storage_start(live[i + 1] as int));
            }
            if let Some((rest, end)) = h.plan(live, i + 1, next + h.footprint(o)) {
                let moves = seq![h.move_to(o, next)] + rest;
                assert forall|k: int| 0 <= k < n - i implies (#[trigger] moves[k]).obj == live[i
                    + k] && moves[k].new_obj == live[i + k] by {
                    if k > 0 {
                        assert(moves[k] == rest[k - 1]);
                        assert(live[i + 1 + (k - 1)] == live[i + k]);
                    }
                }
            }
        }
    }
}

#[verifier::rlimit(60)]
#[verifier::spinoff_prover]
proof fn lemma_packed(
    b: Objects,
    h1: HeapView,
    r: HeapView,
    fwd: Map<u64, u64>,
    moves: Seq<Move>,
    end: int,
)
    requires
        b.sound(),
        marked_only(b, h1),
        compaction(b, h1, r, fwd, moves, end),
        h1.plan(b.old, 0, h1.old.base) == Some((moves, end)),
    ensures
        packed(b.old, slid_places(b, h1, fwd)),
{
    let m = slid_places(b, h1, fwd);
    lemma_marked_tiles(b, h1);
    lemma_distinct(b, h1, moves, end);
    assert forall|i: int, j: int|
        0 <= i < j < b.old.len() && m.dom().contains(#[trigger] b.old[i] as int)
            && m.dom().contains(#[trigger] b.old[j] as int) implies m[b.old[i] as int]
        < m[b.old[j] as int] by {
        let x = b.old[i] as int;
        let y = b.old[j] as int;
        assert(listed(b.old, x) && listed(b.old, y));
        let k = lemma_moved_by(b, h1, r, fwd, moves, end, x);
        let l = lemma_moved_by(b, h1, r, fwd, moves, end, y);
        assert(fin(h1, b.old[i] as int) <= h1.storage_start(b.old[j] as int));
        reveal(plan_ok);
        assert(move_ok(h1, moves[k]) && move_ok(h1, moves[l]));
        if l < k {
            assert(source_end(moves[l]) <= moves[k].start);
        }
        assert(k != l);
        assert(moves[k].new_obj < moves[l].new_obj);
    }
    assert forall|n: int| 0 <= n <= b.old.len() && #[trigger] all_kept(b.old, n, m) implies forall|
        i: int,
    | 0 <= i < n ==> m[#[trigger] b.old[i] as int] == b.old[i] by {
        assert forall|k: int| 0 <= k < n implies h1.marked((#[trigger] b.old[k]) as int) by {
            assert(m.dom().contains(b.old[k] as int));
        }
        lemma_plan_stays(h1, b.old, h1.old.base, h1.old.top(), 0, n);
        assert forall|i: int| 0 <= i < n implies m[#[trigger] b.old[i] as int] == b.old[i] by {
            let a = b.old[i] as int;
            assert(listed(b.old, a));
            assert(m.dom().contains(b.old[i] as int));
            let k = lemma_moved_by(b, h1, r, fwd, moves, end, a);
            assert(moves[i].obj == b.old[0 + i]);
            assert(k == i);
        }
    }
}

/// An old collection keeps the object graph: all that the machine's
/// references reach is carried over with its class, identity hash, format,
/// size and contents, links lead where they led, no two objects become one,
/// nothing is kept that they do not reach, old objects keep their order and
/// close up, nothing else stays in old space, the remembered set holds just
/// the old objects that point young, and the machine is sound again.
#[verifier::rlimit(60)]
#[verifier::spinoff_prover]
pub proof fn law_compaction_keeps_graph(
    v: VmView,
    young: Seq<usize>,
    old: Seq<usize>,
    live: Set<int>,
)
    requires
        v.sound(young, old, live),
    ensures
        v.compacted() matches Ok(w) ==> exists|
            m: Map<int, int>,
            young1: Seq<usize>,
            old1: Seq<usize>,
            live1: Set<int>,
        | compaction_keeps(v, old, w, m, young1, old1, live1),
        v.compacted() matches Ok(w) ==> w.specials.len() == v.specials.len()
            && w.class_table.len() == v.class_table.len() && w.temp_roots.len()
            == v.temp_roots.len(),
{
    reveal(VmView::compacted);
    let v0 = v.boundary("<vm:compact>"@);
    crate::survival::lemma_boundary(v, "<vm:compact>"@);
    assert(v0.sound(young, old, live)) by {
        reveal(VmView::sound);
        assert(v0.objects(young, old, live) == v.objects(young, old, live));
        assert(v0.running_stack() == v.running_stack());
    }
    law_scavenge_keeps_graph(v0, young, old, live);
    if let Ok(s) = v0.scavenged() {
        let (m0, y1, o1) = choose|m0: Map<int, int>, y1: Seq<usize>, o1: Seq<usize>|
            scavenge_keeps(v0, old, s, m0, y1, o1);
        assert(same_graph(v, s, m0));
        let v1 = VmView { compacts: s.compacts.wrapping_add(1), ..s.collection_begun() };
        assert(v1.roots() =~= s.roots());
        assert(v1.sound(y1, o1, Set::full())) by {
            reveal(VmView::sound);
            assert(v1.objects(y1, o1, Set::full()) == s.objects(y1, o1, Set::full()));
            assert(v1.running_stack() == s.running_stack());
        }
        assert(same_graph(v, v1, m0));
        let b = v1.objects(y1, o1, Set::full());
        lemma_marked_heap(v1, y1, o1, Set::full());
        if let Some(h1) = v1.marked_heap() {
            let (moves, end) = lemma_compacted(b, h1);
            if let Some((r, fwd)) = h1.compacted() {
                let w = v.compacted()->Ok_0;
                let roots = crate::compact::relocate_all(fwd, v1.roots());
                crate::survival::lemma_with_roots(v1, roots);
                assert(w.roots() =~= roots);
                assert(w.heap == r);
                let m1 = slid_places(b, h1, fwd);
                lemma_slid_graph(b, v1, h1, r, fwd, moves, end, w);
                crate::survival::lemma_same_graph_twice(v, v1, w, m0, m1);
                lemma_slid_machine(b, v1, h1, r, fwd, moves, end, w);
                lemma_packed(b, h1, r, fwd, moves, end);
                lemma_packed_twice(old, o1, m0, m1);
                lemma_closed_up(b, h1, r, fwd, moves, end, m0);
                assert(only_reached(v, moved_twice(m0, m1))) by {
                    lemma_reached_twice(v, v1, m0, y1, o1, h1, fwd);
                }
                lemma_remembered_again(b, h1, r, fwd, moves, end);
                assert(h1.layout() == v1.heap.layout()) by {
                    reveal(marked_only);
                }
                assert(compaction_keeps(
                    v,
                    old,
                    w,
                    moved_twice(m0, m1),
                    y1,
                    landings(moves),
                    Set::new(|a: int| h1.marked(a)),
                ));
            }
        }
    }
}

/// Where a set of objects was moved to.
pub open spec fn moved_set(m: Map<int, int>, s: Set<int>) -> Set<int> {
    Set::new(|n: int| exists|x: int| #[trigger] m.dom().contains(x) && m[x] == n && s.contains(x))
}

/// A set that holds all that is reached holds it where it was moved to.
proof fn lemma_moved_set(v: VmView, w: VmView, m: Map<int, int>, s: Set<int>)
    requires
        same_graph(v, w, m),
        holds_reached(v, s),
    ensures
        holds_reached(w, moved_set(m, s)),
{
    let t = moved_set(m, s);
    assert forall|i: int| 0 <= i < w.roots().len() implies leads_in(
        w.heap,
        #[trigger] w.roots()[i],
        t,
    ) by {
        assert(leads_in(v.heap, v.roots()[i], s));
        lemma_moved_in(v, w, m, s, v.roots()[i], w.roots()[i]);
    }
    assert forall|n: int, i: int|
        t.contains(n) && !w.heap.hdr(n).byte_format() && 0 <= i < w.heap.nslots(n) implies leads_in(
        w.heap,
        #[trigger] w.heap.slot(n, i),
        t,
    ) by {
        let x = choose|x: int| #[trigger] m.dom().contains(x) && m[x] == n && s.contains(x);
        assert(carried(v.heap, x, w.heap, m[x], m));
        assert(follows(v.heap, m, v.heap.slot(x, i), w.heap.slot(n, i)));
        assert(leads_in(v.heap, v.heap.slot(x, i), s));
        lemma_moved_in(v, w, m, s, v.heap.slot(x, i), w.heap.slot(n, i));
    }
}

proof fn lemma_moved_in(v: VmView, w: VmView, m: Map<int, int>, s: Set<int>, x: Value, y: Value)
    requires
        same_graph(v, w, m),
        follows(v.heap, m, x, y),
        leads_in(v.heap, x, s),
    ensures
        leads_in(w.heap, y, moved_set(m, s)),
{
    crate::value::lemma_untag_bits(y);
    assert(w.heap.plausible(y.addr()) == v.heap.plausible(y.addr()));
    if x.tagged_ptr() && v.heap.plausible(x.addr()) {
        assert(carried(v.heap, x.addr(), w.heap, m[x.addr()], m));
        assert(w.heap.whole(m[x.addr()]));
        assert(y.addr() == m[x.addr()]);
    }
}

/// What two moves keep, the second of which keeps only marked objects, is
/// reached.
proof fn lemma_reached_twice(
    v: VmView,
    v1: VmView,
    m: Map<int, int>,
    young: Seq<usize>,
    old: Seq<usize>,
    h1: HeapView,
    fwd: Map<u64, u64>,
)
    requires
        same_graph(v, v1, m),
        v1.sound(young, old, Set::full()),
        v1.marked_heap() == Some(h1),
    ensures
        only_reached(
            v,
            moved_twice(m, slid_places(v1.objects(young, old, Set::full()), h1, fwd)),
        ),
{
    let b = v1.objects(young, old, Set::full());
    let p = moved_twice(m, slid_places(b, h1, fwd));
    assert forall|s: Set<int>| #[trigger] holds_reached(v, s) implies p.dom().subset_of(s) by {
        lemma_moved_set(v, v1, m, s);
        lemma_marked_within(v1, young, old, Set::full(), moved_set(m, s));
        assert forall|a: int| #[trigger] p.dom().contains(a) implies s.contains(a) by {
            assert(m.dom().contains(a) && b.lists(m[a]) && h1.marked(m[a]));
            let x = choose|x: int| #[trigger]
                m.dom().contains(x) && m[x] == m[a] && s.contains(x);
            assert(m[x] == m[a]);
        }
    }
}

/// After a compaction the remembered set holds just the old objects that
/// point young.
proof fn lemma_remembered_again(
    b: Objects,
    h1: HeapView,
    r: HeapView,
    fwd: Map<u64, u64>,
    moves: Seq<Move>,
    end: int,
)
    requires
        b.sound(),
        marked_only(b, h1),
        compaction(b, h1, r, fwd, moves, end),
    ensures
        remembers(r, landings(moves)),
{
    lemma_landings_tile(b, h1, r, fwd, moves, end);
    assert forall|o: int| #[trigger] listed(landings(moves), o) implies (listed(r.ssb, o)
        <==> r.is_remembered(o)) && (r.is_remembered(o) <==> r.points_young(o)) by {
        let k = choose|k: int| 0 <= k < landings(moves).len() && #[trigger] landings(moves)[k] == o;
        assert(landings(moves)[k] == moves[k].new_obj);
    }
}

/// The old objects after a compaction are just those kept, and fill old
/// space.
#[verifier::rlimit(60)]
proof fn lemma_closed_up(
    b: Objects,
    h1: HeapView,
    r: HeapView,
    fwd: Map<u64, u64>,
    moves: Seq<Move>,
    end: int,
    m: Map<int, int>,
)
    requires
        b.sound(),
        marked_only(b, h1),
        compaction(b, h1, r, fwd, moves, end),
        came_from(m, b.old),
        lands_in(m, b.young, b.old),
    ensures
        came_from(moved_twice(m, slid_places(b, h1, fwd)), landings(moves)),
        lands_in(moved_twice(m, slid_places(b, h1, fwd)), b.young, landings(moves)),
        tiles(r, landings(moves), r.old.base, r.old.top()),
        8 * r.old.alloc == footprints(r, landings(moves)),
{
    let n1 = slid_places(b, h1, fwd);
    let p = moved_twice(m, n1);
    let objs = landings(moves);
    lemma_marked_tiles(b, h1);
    lemma_distinct(b, h1, moves, end);
    lemma_relocations(moves, moves.len() as int);
    lemma_landings_tile(b, h1, r, fwd, moves, end);
    lemma_footprints(r, objs, r.old.base, r.old.top());
    assert forall|n: int| #[trigger] listed(objs, n) implies exists|a: int| #[trigger]
        p.dom().contains(a) && p[a] == n by {
        let k = choose|k: int| 0 <= k < objs.len() && #[trigger] objs[k] == n;
        assert(listed(landings(moves), moves[k].new_obj as int));
        let x = moves[k].obj as int;
        assert(listed(b.old, moves[k].obj as int));
        assert(move_ok(h1, moves[k])) by {
            reveal(plan_ok);
        }
        let a = choose|a: int| #[trigger] m.dom().contains(a) && m[a] == x;
        assert(n1.dom().contains(x));
        assert(fwd[moves[k].obj] == moves[k].new_obj);
        assert(p.dom().contains(a));
    }
    assert forall|a: int| #[trigger] p.dom().contains(a) implies listed(b.young, p[a]) || listed(
        objs,
        p[a],
    ) by {
        let x = m[a];
        assert(m.dom().contains(a) && n1.dom().contains(x));
        if listed(b.old, x) {
            let k = lemma_moved_by(b, h1, r, fwd, moves, end, x);
            assert(listed(objs, moves[k].new_obj as int));
        }
    }
}

#[verifier::rlimit(60)]
proof fn lemma_packed_twice(old: Seq<usize>, old1: Seq<usize>, m: Map<int, int>, n: Map<int, int>)
    requires
        unmoved(old, m),
        old.is_prefix_of(old1),
        packed(old1, n),
    ensures
        packed(old, moved_twice(m, n)),
{
    let p = moved_twice(m, n);
    assert forall|i: int| 0 <= i < old.len() implies #[trigger] old[i] == old1[i] by {
        assert(old[i] == old1.subrange(0, old.len() as int)[i]);
    }
    assert forall|k: int| 0 <= k <= old.len() && #[trigger] all_kept(old, k, p) implies forall|
        i: int,
    | 0 <= i < k ==> p[#[trigger] old[i] as int] == old[i] by {
        assert(all_kept(old1, k, n)) by {
            assert forall|i: int| 0 <= i < k implies n.dom().contains(#[trigger] old1[i] as int) by {
                assert(p.dom().contains(old[i] as int));
            }
        }
        assert forall|i: int| 0 <= i < k implies p[#[trigger] old[i] as int] == old[i] by {
            assert(p.dom().contains(old[i] as int));
            assert(n[old1[i] as int] == old1[i]);
        }
    }
    assert forall|i: int, j: int|
        0 <= i < j < old.len() && p.dom().contains(#[trigger] old[i] as int) && p.dom().contains(
            #[trigger] old[j] as int,
        ) implies p[old[i] as int] < p[old[j] as int] by {
        assert(n.dom().contains(old1[i] as int) && n.dom().contains(old1[j] as int));
    }
}

/// References at the head of the special objects that lead to the first old
/// objects, as those to nil, true and false do, are the same after every
/// collection.
#[verifier::rlimit(60)]
pub proof fn law_first_objects_stay(
    v: VmView,
    young: Seq<usize>,
    old: Seq<usize>,
    live: Set<int>,
    n: int,
)
    requires
        v.sound(young, old, live),
        0 <= n <= old.len(),
        n <= v.specials.len(),
        forall|k: int| 0 <= k < n ==> #[trigger] v.specials[k] == Value(old[k] as u64),
    ensures
        v.scavenged() matches Ok(w) ==> forall|k: int|
            0 <= k < n ==> #[trigger] w.specials[k] == v.specials[k],
        v.compacted() matches Ok(w) ==> forall|k: int|
            0 <= k < n ==> #[trigger] w.specials[k] == v.specials[k],
{
    law_scavenge_keeps_graph(v, young, old, live);
    law_compaction_keeps_graph(v, young, old, live);
    let b = v.objects(young, old, live);
    assert(b.sound()) by {
        reveal(VmView::sound);
    }
    assert forall|k: int| 0 <= k < n implies (#[trigger] v.specials[k]).tagged_ptr()
        && v.heap.plausible(v.specials[k].addr()) && v.specials[k].addr() == old[k] && v.roots()[k]
        == v.specials[k] by {
        assert(listed(b.old, old[k] as int));
        lemma_listed(b, old[k] as int);
        crate::value::lemma_untag_bits(v.specials[k]);
    }
    if let Ok(w) = v.scavenged() {
        let (m, y1, o1) = choose|m: Map<int, int>, y1: Seq<usize>, o1: Seq<usize>|
            scavenge_keeps(v, old, w, m, y1, o1);
        assert forall|k: int| 0 <= k < n implies #[trigger] w.specials[k] == v.specials[k] by {
            assert(w.roots()[k] == w.specials[k]);
            assert(m[old[k] as int] == old[k]);
        }
    }
    if let Ok(w) = v.compacted() {
        let (m, y1, o1, l1) = choose|
            m: Map<int, int>,
            y1: Seq<usize>,
            o1: Seq<usize>,
            l1: Set<int>,
        | compaction_keeps(v, old, w, m, y1, o1, l1);
        assert(all_kept(old, n, m)) by {
            assert forall|i: int| 0 <= i < n implies m.dom().contains(#[trigger] old[i] as int) by {
                assert(w.roots()[i] == w.specials[i]);
                assert(follows(v.heap, m, v.roots()[i], w.roots()[i]));
                assert(v.specials[i].addr() == old[i]);
            }
        }
        assert forall|k: int| 0 <= k < n implies #[trigger] w.specials[k] == v.specials[k] by {
            assert(w.roots()[k] == w.specials[k]);
            assert(m[old[k] as int] == old[k]);
        }
    }
}

#[verifier::rlimit(60)]
#[verifier::spinoff_prover]
proof fn lemma_slid_graph(
    b: Objects,
    v: VmView,
    h1: HeapView,
    r: HeapView,
    fwd: Map<u64, u64>,
    moves: Seq<Move>,
    end: int,
    w: VmView,
)
    requires
        b.sound(),
        b.heap == v.heap,
        forall|k: int| 0 <= k < v.roots().len() ==> b.known(#[trigger] v.roots()[k]),
        all_marked(b, v, h1),
        compaction(b, h1, r, fwd, moves, end),
        w.heap == r,
        w.roots() == crate::compact::relocate_all(fwd, v.roots()),
    ensures
        same_graph(v, w, slid_places(b, h1, fwd)),
{
    let m = slid_places(b, h1, fwd);
    lemma_marked_tiles(b, h1);
    assert(v.heap.wf()) by {
        reveal(Objects::sound);
    }
    assert forall|i: int| 0 <= i < v.roots().len() implies follows(
        v.heap,
        m,
        v.roots()[i],
        #[trigger] w.roots()[i],
    ) by {
        assert(b.known(v.roots()[i]));
        assert(target_marked(b, h1, v.roots()[i]));
        lemma_relocated_follows(b, h1, r, fwd, moves, end, v.roots()[i]);
    }
    assert forall|a: int| #[trigger] m.dom().contains(a) implies carried(v.heap, a, w.heap, m[a], m)
        by {
        lemma_stands_after(b, h1, r, fwd, moves, end, a);
        assert forall|i: int| 0 <= i < v.heap.nslots(a) implies if v.heap.hdr(a).byte_format() {
            #[trigger] r.slot(m[a], i) == v.heap.slot(a, i)
        } else {
            follows(v.heap, m, v.heap.slot(a, i), r.slot(m[a], i))
        } by {
            let x = v.heap.slot(a, i);
            if !v.heap.hdr(a).byte_format() {
                assert(b.has(a) && traced(b, h1, a));
                assert(target_marked(b, h1, b.heap.slot(a, i)));
                assert(b.known(x)) by {
                    reveal(Objects::sound);
                }
                lemma_relocated_follows(b, h1, r, fwd, moves, end, x);
            }
        }
    }
    assert forall|a1: int, a2: int|
        m.dom().contains(a1) && m.dom().contains(a2) && #[trigger] m[a1]
            == #[trigger] m[a2] implies a1 == a2 by {
        lemma_stands_after(b, h1, r, fwd, moves, end, a1);
        lemma_stands_after(b, h1, r, fwd, moves, end, a2);
        if listed(b.old, a1) {
            let k1 = lemma_moved_by(b, h1, r, fwd, moves, end, a1);
            let k2 = lemma_moved_by(b, h1, r, fwd, moves, end, a2);
            lemma_distinct(b, h1, moves, end);
            if k1 < k2 {
                assert(moves[k1].new_obj < moves[k2].new_obj);
            } else if k2 < k1 {
                assert(moves[k2].new_obj < moves[k1].new_obj);
            }
        }
    }
}

#[verifier::rlimit(60)]
#[verifier::spinoff_prover]
proof fn lemma_slid_machine(
    b: Objects,
    v: VmView,
    h1: HeapView,
    r: HeapView,
    fwd: Map<u64, u64>,
    moves: Seq<Move>,
    end: int,
    w: VmView,
)
    requires
        v.sound(b.young, b.old, b.live),
        b == v.objects(b.young, b.old, b.live),
        b.sound(),
        all_marked(b, v, h1),
        compaction(b, h1, r, fwd, moves, end),
        w.heap == r,
        w.roots() == crate::compact::relocate_all(fwd, v.roots()),
        w.specials.len() == v.specials.len(),
        w.active == w.roots()[w.roots().len() - 1],
        v.active == v.roots()[v.roots().len() - 1],
    ensures
        w.sound(b.young, landings(moves), Set::new(|a: int| h1.marked(a))),
{
    let b1 = after(b, h1, r, moves);
    lemma_after_sound(b, v, h1, r, fwd, moves, end);
    lemma_marked_tiles(b, h1);
    lemma_landings_tile(b, h1, r, fwd, moves, end);
    reveal(VmView::sound);
    assert forall|i: int| 0 <= i < w.roots().len() implies b1.known(#[trigger] w.roots()[i]) by {
        assert(b.known(v.roots()[i]));
        assert(target_marked(b, h1, v.roots()[i]));
        lemma_relocated_known(b, h1, r, fwd, moves, end, v.roots()[i]);
    }
    let last = v.roots().len() - 1;
    if w.active.tagged_ptr() && r.plausible(w.active.addr()) {
        assert(b.known(v.roots()[last]) && target_marked(b, h1, v.roots()[last]));
        lemma_relocated_follows(b, h1, r, fwd, moves, end, v.active);
        assert(v.active.tagged_ptr() && b.heap.plausible(v.active.addr()));
        let a = v.active.addr();
        assert(b.lists(a));
        lemma_stands_after(b, h1, r, fwd, moves, end, a);
    }
    assert forall|k: int| 0 <= k < r.ssb.len() implies listed(b1.old, (#[trigger] r.ssb[k]) as int) by {
        assert(listed(r.ssb, r.ssb[k] as int));
        assert(landing(moves, moves.len() as int, r.ssb[k] as int));
        reveal(landing);
        let j = choose|j: int| 0 <= j < moves.len() && (#[trigger] moves[j]).new_obj == r.ssb[k];
        assert(listed(landings(moves), moves[j].new_obj as int));
    }
    assert forall|o: int, i: int|
        listed(b1.old, o) && !r.hdr(o).byte_format() && 0 <= i < r.nslots(o) && (
        #[trigger] r.slot(o, i)).tagged_ptr() && r.young(r.slot(o, i).addr()) implies listed(
        r.ssb,
        o,
    ) || w.running_stack() == Some(o) by {
        let k = choose|k: int| 0 <= k < landings(moves).len() && #[trigger] landings(moves)[k] == o;
        assert(landings(moves)[k] == moves[k].new_obj);
        lemma_within(r, landings(moves), r.old.base, r.old.top(), o);
        assert(noted(r, moves[k].new_obj as int));
    }
}

} // verus!
