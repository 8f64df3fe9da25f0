//! Queues of processes keep the order in which processes came, and
//! semaphores keep the signals that nobody waits for.

use crate::graph::{
    fin, lemma_apart, lemma_reads_after_write, lemma_tiles_kept, lemma_within, listed, same_size,
    tiles,
};
use crate::heap::HeapView;
use crate::machine::Machine;
use crate::requests::Outcome;
use crate::treaty::{
    CLASS_SEMAPHORE, PROCESS_MY_LIST, PROCESS_NEXT_LINK, SEMAPHORE_EXCESS_SIGNALS,
    SEMAPHORE_QUEUE_HEAD, SEMAPHORE_QUEUE_TAIL,
};
use crate::value::Value;
use crate::vm::{Fault, VmView};
use vstd::prelude::*;

verus! {

/// Objects fill young and old space.
pub open spec fn laid_out(h: HeapView, young: Seq<usize>, old: Seq<usize>) -> bool {
    &&& h.wf()
    &&& tiles(h, young, h.from.base, h.from.top())
    &&& tiles(h, old, h.old.base, h.old.top())
}

/// There is an object at `a` with more than `i` slots.
pub open spec fn roomy(h: HeapView, young: Seq<usize>, old: Seq<usize>, a: int, i: int) -> bool {
    (listed(young, a) || listed(old, a)) && 0 <= i < h.nslots(a)
}

/// Different objects do not overlap.
pub(crate) proof fn lemma_apart_all(h: HeapView, young: Seq<usize>, old: Seq<usize>, a: int, b: int)
    requires
        laid_out(h, young, old),
        listed(young, a) || listed(old, a),
        listed(young, b) || listed(old, b),
    ensures
        h.whole(a),
        h.storage_start(a) <= a,
        a != b ==> fin(h, a) <= h.storage_start(b) || fin(h, b) <= h.storage_start(a),
        h.plausible(h.storage_start(a)),
{
    if listed(young, a) {
        lemma_within(h, young, h.from.base, h.from.top(), a);
    } else {
        lemma_within(h, old, h.old.base, h.old.top(), a);
    }
    if listed(young, b) {
        lemma_within(h, young, h.from.base, h.from.top(), b);
    } else {
        lemma_within(h, old, h.old.base, h.old.top(), b);
    }
    if a != b {
        if listed(young, a) && listed(young, b) {
            lemma_apart(h, young, h.from.base, h.from.top(), a, b);
        } else if listed(old, a) && listed(old, b) {
            lemma_apart(h, old, h.old.base, h.old.top(), a, b);
        }
    }
}

/// What a store into a slot does to the objects of a heap.
pub open spec fn stored(
    h: HeapView,
    r: HeapView,
    young: Seq<usize>,
    old: Seq<usize>,
    o: int,
    i: int,
    v: Value,
) -> bool {
    &&& laid_out(r, young, old)
    &&& r.layout() == h.layout()
    &&& r.slot(o, i) == v
    &&& forall|a: int|
        #![trigger h.nslots(a)]
        #![trigger r.nslots(a)]
        listed(young, a) || listed(old, a) ==> r.nslots(a) == h.nslots(a) && r.whole(a)
    &&& forall|a: int, j: int|
        roomy(h, young, old, a, j) && !(a == o && j == i) ==> #[trigger] r.slot(a, j) == h.slot(
            a,
            j,
        )
}

/// Two heaps with the same words but for collector bits and one slot.
proof fn lemma_laid_kept(h: HeapView, r: HeapView, young: Seq<usize>, old: Seq<usize>)
    requires
        laid_out(h, young, old),
        r.wf(),
        r.layout() == h.layout(),
        r.from.alloc == h.from.alloc,
        r.old.alloc == h.old.alloc,
        forall|a: int| #![trigger h.nslots(a)]
            listed(young, a) || listed(old, a) ==> same_size(h, r, a),
    ensures
        laid_out(r, young, old),
{
    assert forall|k: int| 0 <= k < young.len() implies same_size(h, r, (#[trigger] young[k]) as int)
        by {
        assert(listed(young, young[k] as int));
        assert(h.nslots(young[k] as int) == h.nslots(young[k] as int));
    }
    assert forall|k: int| 0 <= k < old.len() implies same_size(h, r, (#[trigger] old[k]) as int) by {
        assert(listed(old, old[k] as int));
        assert(h.nslots(old[k] as int) == h.nslots(old[k] as int));
    }
    lemma_tiles_kept(h, r, young, h.from.base, h.from.top());
    lemma_tiles_kept(h, r, old, h.old.base, h.old.top());
}

/// A header write that keeps the object's size changes no slot.
pub(crate) proof fn lemma_header_aside(
    h: HeapView,
    r: HeapView,
    young: Seq<usize>,
    old: Seq<usize>,
    o: int,
)
    requires
        laid_out(h, young, old),
        listed(young, o) || listed(old, o),
        r.wf(),
        r.layout() == h.layout(),
        r.from.alloc == h.from.alloc,
        r.old.alloc == h.old.alloc,
        r.hdr(o).nslots_field() == h.hdr(o).nslots_field(),
        forall|x: int| h.plausible(x) && x != o ==> #[trigger] r.read(x) == h.read(x),
    ensures
        laid_out(r, young, old),
        forall|a: int| #![trigger r.nslots(a)]
            listed(young, a) || listed(old, a) ==> r.nslots(a) == h.nslots(a) && r.whole(a),
        forall|a: int, j: int|
            roomy(h, young, old, a, j) ==> #[trigger] r.slot(a, j) == h.slot(a, j),
{
    assert forall|a: int| #![trigger h.nslots(a)]
        listed(young, a) || listed(old, a) implies same_size(h, r, a) by {
        lemma_apart_all(h, young, old, a, o);
        if h.has_over(a) {
            lemma_apart_all(h, young, old, o, a);
            assert(r.read(a - 8) == h.read(a - 8));
        }
        if a != o {
            assert(r.read(a) == h.read(a));
        }
    }
    lemma_laid_kept(h, r, young, old);
    assert forall|a: int| #![trigger r.nslots(a)]
        listed(young, a) || listed(old, a) implies r.nslots(a) == h.nslots(a) && r.whole(a) by {
        lemma_apart_all(h, young, old, a, a);
        assert(h.nslots(a) == h.nslots(a));
        assert(same_size(h, r, a));
        lemma_apart_all(r, young, old, a, a);
    }
    assert forall|a: int, j: int| roomy(h, young, old, a, j) implies #[trigger] r.slot(a, j)
        == h.slot(a, j) by {
        lemma_apart_all(h, young, old, a, o);
        lemma_apart_all(h, young, old, o, a);
        assert(h.plausible(a + 8 + 8 * j));
    }
}

/// A store without the barrier.
#[verifier::rlimit(60)]
#[verifier::spinoff_prover]
pub(crate) proof fn lemma_slot_stored(
    h: HeapView,
    young: Seq<usize>,
    old: Seq<usize>,
    o: int,
    i: int,
    v: Value,
)
    requires
        laid_out(h, young, old),
        roomy(h, young, old, o, i),
    ensures
        stored(h, h.set_slot(o, i, v), young, old, o, i, v),
        h.set_slot(o, i, v).read(o) == h.read(o),
{
    let x = o + 8 + 8 * i;
    lemma_apart_all(h, young, old, o, o);
    assert(h.plausible(x));
    lemma_reads_after_write(h, x, v.0);
    let h1 = h.set_slot(o, i, v);
    assert forall|a: int| #![trigger h.nslots(a)]
        listed(young, a) || listed(old, a) implies same_size(h, h1, a) by {
        lemma_apart_all(h, young, old, a, o);
        assert(h1.read(a) == h.read(a));
        if h.has_over(a) {
            assert(h1.read(a - 8) == h.read(a - 8));
        }
    }
    lemma_laid_kept(h, h1, young, old);
    assert forall|a: int, j: int|
        roomy(h, young, old, a, j) && !(a == o && j == i) implies #[trigger] h1.slot(a, j)
        == h.slot(a, j) by {
        lemma_apart_all(h, young, old, a, o);
        assert(h.plausible(a + 8 + 8 * j));
    }
    assert forall|a: int|
        #![trigger h.nslots(a)]
        #![trigger h1.nslots(a)]
        listed(young, a) || listed(old, a) implies h1.nslots(a) == h.nslots(a) && h1.whole(a) by {
        assert(h.nslots(a) == h.nslots(a));
        assert(same_size(h, h1, a));
        lemma_apart_all(h1, young, old, a, a);
    }
}

/// A heap after a store whose collector bits change as well.
proof fn lemma_stored_on(
    h: HeapView,
    h1: HeapView,
    r: HeapView,
    young: Seq<usize>,
    old: Seq<usize>,
    o: int,
    i: int,
    v: Value,
)
    requires
        stored(h, h1, young, old, o, i, v),
        roomy(h, young, old, o, i),
        laid_out(r, young, old),
        r.layout() == h1.layout(),
        forall|a: int| #![trigger r.nslots(a)]
            listed(young, a) || listed(old, a) ==> r.nslots(a) == h1.nslots(a) && r.whole(a),
        forall|a: int, j: int|
            roomy(h1, young, old, a, j) ==> #[trigger] r.slot(a, j) == h1.slot(a, j),
    ensures
        stored(h, r, young, old, o, i, v),
{
    assert(h1.nslots(o) == h.nslots(o));
    assert(roomy(h1, young, old, o, i));
    assert(r.slot(o, i) == h1.slot(o, i));
    assert forall|a: int, j: int|
        roomy(h, young, old, a, j) && !(a == o && j == i) implies #[trigger] r.slot(a, j) == h.slot(
        a,
        j,
    ) by {
        assert(h1.nslots(a) == h.nslots(a));
        assert(roomy(h1, young, old, a, j));
        assert(r.slot(a, j) == h1.slot(a, j));
        assert(h1.slot(a, j) == h.slot(a, j));
    }
    assert forall|a: int|
        #![trigger h.nslots(a)]
        #![trigger r.nslots(a)]
        listed(young, a) || listed(old, a) implies r.nslots(a) == h.nslots(a) && r.whole(a) by {
        assert(r.nslots(a) == h1.nslots(a));
        assert(h1.nslots(a) == h.nslots(a));
    }
}

pub(crate) proof fn lemma_stored(
    h: HeapView,
    young: Seq<usize>,
    old: Seq<usize>,
    o: int,
    i: int,
    v: Value,
)
    requires
        laid_out(h, young, old),
        roomy(h, young, old, o, i),
    ensures
        stored(h, h.store(o, i, v), young, old, o, i, v),
{
    lemma_slot_stored(h, young, old, o, i, v);
    let h1 = h.set_slot(o, i, v);
    let r = h.store(o, i, v);
    if r != h1 {
        lemma_apart_all(h1, young, old, o, o);
        let hd = h1.hdr(o);
        let g = hd.gc_field();
        crate::heap::lemma_header_update(hd, 0, 0);
        crate::survival::lemma_remembered_bits(g);
        crate::heap::lemma_header_update(hd, 0, g | 2);
        let w = h1.write(o, hd.regc(g | 2).0);
        lemma_reads_after_write(h1, o, hd.regc(g | 2).0);
        assert(forall|y: int| #[trigger] r.read(y) == w.read(y)) by {
            reveal(HeapView::read);
        }
        assert forall|y: int| h1.plausible(y) && y != o implies #[trigger] r.read(y) == h1.read(y)
            by {
            assert(w.read(y) == h1.read(y));
        }
        lemma_header_aside(h1, r, young, old, o);
        lemma_stored_on(h, h1, r, young, old, o, i, v);
    }
}

// ---------------------------------------------------------------------------
// Fields
// ---------------------------------------------------------------------------
/// What a guarded store does to the fields of the machine's objects.
pub open spec fn field_stored(
    v: VmView,
    w: VmView,
    young: Seq<usize>,
    old: Seq<usize>,
    o: Value,
    i: int,
    x: Value,
) -> bool {
    &&& laid_out(w.heap, young, old)
    &&& w.nil() == v.nil()
    &&& w.field(o, i) == x
    &&& forall|a: Value, j: int|
        #![trigger roomy(v.heap, young, old, a.addr(), j)]
        #![trigger roomy(w.heap, young, old, a.addr(), j)]
        roomy(v.heap, young, old, a.addr(), j) == roomy(w.heap, young, old, a.addr(), j)
    &&& forall|a: Value, j: int|
        roomy(v.heap, young, old, a.addr(), j) && !(a == o && j == i) ==> #[trigger] w.field(a, j)
            == v.field(a, j)
}

pub(crate) proof fn lemma_field(v: VmView, young: Seq<usize>, old: Seq<usize>, a: Value, j: int)
    requires
        laid_out(v.heap, young, old),
        roomy(v.heap, young, old, a.addr(), j),
    ensures
        v.field(a, j) == v.heap.slot(a.addr(), j),
        v.heap.shaped(a.addr(), j + 1),
{
    reveal(VmView::field);
    lemma_apart_all(v.heap, young, old, a.addr(), a.addr());
}

pub(crate) proof fn lemma_field_stored(
    v: VmView,
    young: Seq<usize>,
    old: Seq<usize>,
    o: Value,
    i: int,
    x: Value,
)
    requires
        laid_out(v.heap, young, old),
        roomy(v.heap, young, old, o.addr(), i),
    ensures
        field_stored(v, v.with_stored(o, i, x), young, old, o, i, x),
{
    lemma_field(v, young, old, o, i);
    reveal(VmView::with_stored);
    lemma_stored(v.heap, young, old, o.addr(), i, x);
    let w = v.with_stored(o, i, x);
    let h = v.heap;
    let r = w.heap;
    assert forall|a: Value, j: int|
        #![trigger roomy(h, young, old, a.addr(), j)]
        #![trigger roomy(r, young, old, a.addr(), j)]
        roomy(h, young, old, a.addr(), j) == roomy(r, young, old, a.addr(), j) by {
        if listed(young, a.addr()) || listed(old, a.addr()) {
            assert(r.nslots(a.addr()) == h.nslots(a.addr()));
        }
    }
    assert(roomy(r, young, old, o.addr(), i));
    lemma_field(w, young, old, o, i);
    assert forall|a: Value, j: int|
        roomy(h, young, old, a.addr(), j) && !(a == o && j == i) implies #[trigger] w.field(a, j)
        == v.field(a, j) by {
        assert(roomy(r, young, old, a.addr(), j));
        lemma_field(v, young, old, a, j);
        lemma_field(w, young, old, a, j);
        assert(r.slot(a.addr(), j) == h.slot(a.addr(), j));
    }
}

// ---------------------------------------------------------------------------
// The queue
// ---------------------------------------------------------------------------
/// A queue whose head and tail are slots `hs` and `ts` of `list` holds these
/// processes, first to last.
#[verifier::opaque]
pub open spec fn queue_of(
    v: VmView,
    young: Seq<usize>,
    old: Seq<usize>,
    list: Value,
    hs: int,
    ts: int,
    items: Seq<Value>,
) -> bool {
    &&& laid_out(v.heap, young, old)
    &&& hs != ts
    &&& roomy(v.heap, young, old, list.addr(), hs)
    &&& roomy(v.heap, young, old, list.addr(), ts)
    &&& v.field(list, hs) == (if items.len() == 0 {
        v.nil()
    } else {
        items[0]
    })
    &&& items.len() > 0 ==> v.field(list, ts) == items.last()
    &&& forall|k: int|
        0 <= k < items.len() ==> queueable(v, young, old, list, #[trigger] items[k]) && v.field(
            items[k],
            PROCESS_MY_LIST as int,
        ) == list && v.field(items[k], PROCESS_NEXT_LINK as int) == (if k + 1 < items.len() {
            items[k + 1]
        } else {
            v.nil()
        })
    &&& forall|j: int, k: int|
        0 <= j < k < items.len() ==> #[trigger] items[j] != #[trigger] items[k]
}

/// A process object that can stand in a queue.
pub open spec fn queueable(
    v: VmView,
    young: Seq<usize>,
    old: Seq<usize>,
    list: Value,
    p: Value,
) -> bool {
    &&& p != v.nil()
    &&& p != list
    &&& roomy(v.heap, young, old, p.addr(), PROCESS_NEXT_LINK as int)
    &&& roomy(v.heap, young, old, p.addr(), PROCESS_MY_LIST as int)
}

/// A process that joins a queue comes last, and the others stay in order.
#[verifier::rlimit(60)]
#[verifier::spinoff_prover]
pub proof fn law_enqueued_last(
    v: VmView,
    young: Seq<usize>,
    old: Seq<usize>,
    list: Value,
    hs: int,
    ts: int,
    items: Seq<Value>,
    p: Value,
)
    requires
        queue_of(v, young, old, list, hs, ts, items),
        queueable(v, young, old, list, p),
        !items.contains(p),
    ensures
        queue_of(v.enqueued(list, hs, ts, p), young, old, list, hs, ts, items.push(p)),
{
    reveal(queue_of);
    reveal(VmView::enqueued);
    let nil = v.nil();
    let nx = PROCESS_NEXT_LINK as int;
    let ml = PROCESS_MY_LIST as int;
    lemma_field_stored(v, young, old, p, nx, nil);
    let a = v.with_stored(p, nx, nil);
    assert(roomy(a.heap, young, old, p.addr(), ml));
    lemma_field_stored(a, young, old, p, ml, list);
    let b = a.with_stored(p, ml, list);
    assert(roomy(a.heap, young, old, list.addr(), hs) && roomy(a.heap, young, old, list.addr(), ts));
    assert(roomy(b.heap, young, old, list.addr(), hs) && roomy(b.heap, young, old, list.addr(), ts));
    assert(a.field(list, hs) == v.field(list, hs));
    assert(b.field(list, hs) == a.field(list, hs));
    assert(a.field(list, ts) == v.field(list, ts));
    assert(b.field(list, ts) == a.field(list, ts));
    let last = v.field(list, ts);
    if items.len() > 0 {
        assert(items[items.len() - 1] == items.last());
        assert(queueable(v, young, old, list, items[items.len() - 1]));
        assert(roomy(a.heap, young, old, last.addr(), nx));
        assert(roomy(b.heap, young, old, last.addr(), nx));
        lemma_field_stored(b, young, old, last, nx, p);
    } else {
        lemma_field_stored(b, young, old, list, hs, p);
    }
    if items.len() > 0 {
        assert(items[0] != nil) by {
            assert(queueable(v, young, old, list, items[0]));
        }
    }
    let c = if b.field(list, hs) == nil {
        b.with_stored(list, hs, p)
    } else {
        b.with_stored(last, nx, p)
    };
    assert(roomy(c.heap, young, old, list.addr(), ts));
    lemma_field_stored(c, young, old, list, ts, p);
    let w = c.with_stored(list, ts, p);
    assert(w == v.enqueued(list, hs, ts, p));
    let all = items.push(p);
    assert(roomy(c.heap, young, old, list.addr(), hs));
    assert(roomy(w.heap, young, old, list.addr(), hs) && roomy(w.heap, young, old, list.addr(), ts));
    assert(w.field(list, hs) == c.field(list, hs));
    assert forall|k: int| 0 <= k < all.len() implies queueable(
        w,
        young,
        old,
        list,
        #[trigger] all[k],
    ) && w.field(all[k], ml) == list && w.field(all[k], nx) == (if k + 1 < all.len() {
        all[k + 1]
    } else {
        nil
    }) by {
        let q = all[k];
        if k < items.len() {
            assert(q == items[k]);
            assert(items.contains(items[k]));
        }
        assert(queueable(v, young, old, list, q));
        assert(roomy(a.heap, young, old, q.addr(), nx) && roomy(a.heap, young, old, q.addr(), ml));
        assert(roomy(b.heap, young, old, q.addr(), nx) && roomy(b.heap, young, old, q.addr(), ml));
        assert(roomy(c.heap, young, old, q.addr(), nx) && roomy(c.heap, young, old, q.addr(), ml));
        assert(roomy(w.heap, young, old, q.addr(), nx) && roomy(w.heap, young, old, q.addr(), ml));
        assert(w.field(q, nx) == c.field(q, nx) && w.field(q, ml) == c.field(q, ml));
        assert(c.field(q, ml) == b.field(q, ml));
        if k == items.len() {
            assert(items.len() > 0 ==> last != p);
            assert(c.field(q, nx) == b.field(q, nx));
            assert(b.field(q, nx) == a.field(q, nx));
        } else {
            assert(b.field(q, ml) == a.field(q, ml) && a.field(q, ml) == v.field(q, ml));
            assert(b.field(q, nx) == a.field(q, nx) && a.field(q, nx) == v.field(q, nx));
            if k == items.len() - 1 {
                assert(q == last);
            } else {
                assert(items[k] != items[items.len() - 1]);
                assert(c.field(q, nx) == b.field(q, nx));
                assert(all[k + 1] == items[k + 1]);
            }
        }
    }
    assert forall|j: int, k: int| 0 <= j < k < all.len() implies #[trigger] all[j]
        != #[trigger] all[k] by {
        assert(all[j] == items[j]);
        assert(items.contains(items[j]));
    }
}

/// The process taken out of a queue is the one that came first, and the
/// others stay in order.
#[verifier::rlimit(60)]
#[verifier::spinoff_prover]
pub proof fn law_dequeued_first(
    v: VmView,
    young: Seq<usize>,
    old: Seq<usize>,
    list: Value,
    hs: int,
    ts: int,
    items: Seq<Value>,
)
    requires
        queue_of(v, young, old, list, hs, ts, items),
    ensures
        items.len() == 0 ==> v.dequeued(list, hs, ts) == (v, None::<Value>),
        items.len() > 0 ==> v.dequeued(list, hs, ts).1 == Some(items[0]) && queue_of(
            v.dequeued(list, hs, ts).0,
            young,
            old,
            list,
            hs,
            ts,
            items.skip(1),
        ),
{
    reveal(queue_of);
    reveal(VmView::dequeued);
    let nil = v.nil();
    let nx = PROCESS_NEXT_LINK as int;
    let ml = PROCESS_MY_LIST as int;
    if items.len() > 0 {
        let head = items[0];
        assert(queueable(v, young, old, list, items[0]));
        let next = v.field(head, nx);
        let rest = items.skip(1);
        if items.len() > 1 {
            assert(queueable(v, young, old, list, items[1]));
            assert(rest[0] == items[1]);
            assert(rest.last() == items.last());
        }
        lemma_field_stored(v, young, old, list, hs, next);
        let a = v.with_stored(list, hs, next);
        assert(roomy(a.heap, young, old, list.addr(), ts));
        lemma_field_stored(a, young, old, list, ts, nil);
        let b = if next == nil {
            a.with_stored(list, ts, nil)
        } else {
            a
        };
        assert(roomy(a.heap, young, old, head.addr(), nx) && roomy(
            a.heap,
            young,
            old,
            head.addr(),
            ml,
        ));
        assert(roomy(b.heap, young, old, head.addr(), nx));
        lemma_field_stored(b, young, old, head, nx, nil);
        let c = b.with_stored(head, nx, nil);
        assert(roomy(b.heap, young, old, head.addr(), ml));
        assert(roomy(c.heap, young, old, head.addr(), ml));
        lemma_field_stored(c, young, old, head, ml, nil);
        let w = c.with_stored(head, ml, nil);
        assert(w == v.dequeued(list, hs, ts).0);
        assert(roomy(b.heap, young, old, list.addr(), hs) && roomy(
            b.heap,
            young,
            old,
            list.addr(),
            ts,
        ));
        assert(roomy(c.heap, young, old, list.addr(), hs) && roomy(
            c.heap,
            young,
            old,
            list.addr(),
            ts,
        ));
        assert(roomy(w.heap, young, old, list.addr(), hs) && roomy(
            w.heap,
            young,
            old,
            list.addr(),
            ts,
        ));
        assert(w.field(list, hs) == c.field(list, hs) && c.field(list, hs) == b.field(list, hs));
        assert(w.field(list, ts) == c.field(list, ts) && c.field(list, ts) == b.field(list, ts));
        assert(roomy(a.heap, young, old, list.addr(), hs));
        assert(b.field(list, hs) == a.field(list, hs));
        assert(a.field(list, ts) == v.field(list, ts));
        assert forall|k: int| 0 <= k < rest.len() implies queueable(
            w,
            young,
            old,
            list,
            #[trigger] rest[k],
        ) && w.field(rest[k], ml) == list && w.field(rest[k], nx) == (if k + 1 < rest.len() {
            rest[k + 1]
        } else {
            nil
        }) by {
            let q = items[k + 1];
            assert(rest[k] == q);
            assert(queueable(v, young, old, list, items[k + 1]));
            assert(items[0] != items[k + 1]);
            assert(roomy(a.heap, young, old, q.addr(), nx) && roomy(
                a.heap,
                young,
                old,
                q.addr(),
                ml,
            ));
            assert(roomy(b.heap, young, old, q.addr(), nx) && roomy(
                b.heap,
                young,
                old,
                q.addr(),
                ml,
            ));
            assert(roomy(c.heap, young, old, q.addr(), nx) && roomy(
                c.heap,
                young,
                old,
                q.addr(),
                ml,
            ));
            assert(roomy(w.heap, young, old, q.addr(), nx) && roomy(
                w.heap,
                young,
                old,
                q.addr(),
                ml,
            ));
            assert(w.field(q, nx) == c.field(q, nx) && c.field(q, nx) == b.field(q, nx));
            assert(w.field(q, ml) == c.field(q, ml) && c.field(q, ml) == b.field(q, ml));
            assert(b.field(q, nx) == a.field(q, nx) && a.field(q, nx) == v.field(q, nx));
            assert(b.field(q, ml) == a.field(q, ml) && a.field(q, ml) == v.field(q, ml));
            if k + 1 < rest.len() {
                assert(rest[k + 1] == items[k + 2]);
            }
        }
        assert forall|j: int, k: int| 0 <= j < k < rest.len() implies #[trigger] rest[j]
            != #[trigger] rest[k] by {
            assert(rest[j] == items[j + 1] && rest[k] == items[k + 1]);
        }
    }
}

// ---------------------------------------------------------------------------
// Signals
// ---------------------------------------------------------------------------
/// A word written over and written back is as before.
proof fn lemma_written_back(h: HeapView, a: int, x: u64, y: u64)
    requires
        h.wf(),
        h.plausible(a),
        h.read(a) == y,
    ensures
        h.write(a, x).write(a, y) == h,
{
    reveal(HeapView::read);
    reveal(HeapView::write);
    let r = h.write(a, x).write(a, y);
    assert(r.from.mem =~= h.from.mem);
    assert(r.to.mem =~= h.to.mem);
    assert(r.old.mem =~= h.old.mem);
}

/// A signal that nobody waits for is kept, and the next wait takes it: it
/// does not block, and after both the machine is as before.
#[verifier::rlimit(60)]
pub proof fn law_kept_signal_is_taken(m: Machine, young: Seq<usize>, old: Seq<usize>, r: int)
    requires
        m.vm.is_a(m.get(r), CLASS_SEMAPHORE),
        queue_of(
            m.vm,
            young,
            old,
            m.get(r),
            SEMAPHORE_QUEUE_HEAD as int,
            SEMAPHORE_QUEUE_TAIL as int,
            Seq::empty(),
        ),
        roomy(m.vm.heap, young, old, m.get(r).addr(), SEMAPHORE_EXCESS_SIGNALS as int),
        m.vm.field(m.get(r), SEMAPHORE_EXCESS_SIGNALS as int).tagged_int(),
        0 <= m.vm.int_field(m.get(r), SEMAPHORE_EXCESS_SIGNALS as int) < Value::SMALLINT_MAX,
        m.regs.stack != m.get(r),
        roomy(
            m.vm.heap,
            young,
            old,
            m.regs.stack.addr(),
            m.regs.frame + crate::treaty::FRAME_RECEIVER + r,
        ),
    ensures
        m.prim_signal(r) matches Ok((m1, o)) && o == Outcome::Value(m.get(r)) && m1.prim_wait(r)
            == Ok::<(Machine, Outcome), Fault>((m, Outcome::Value(m.get(r)))),
{
    let sem = m.get(r);
    let e = SEMAPHORE_EXCESS_SIGNALS as int;
    let h = m.vm.heap;
    let x = m.vm.field(sem, e);
    let n = x.int_value();
    let v = m.vm.excess_added(sem);
    let m1 = m.on(v);
    let y = crate::value::tag((n + 1) as i64);
    reveal(Machine::prim_signal);
    reveal(Machine::prim_wait);
    reveal(VmView::dequeued);
    reveal(VmView::with_field);
    assert(laid_out(h, young, old) && m.vm.field(sem, SEMAPHORE_QUEUE_HEAD as int) == m.vm.nil())
        by {
        reveal(queue_of);
    }
    lemma_field(m.vm, young, old, sem, e);
    lemma_slot_stored(h, young, old, sem.addr(), e, y);
    let r1 = h.set_slot(sem.addr(), e, y);
    assert(v.heap == r1);
    assert(roomy(r1, young, old, sem.addr(), e)) by {
        assert(r1.nslots(sem.addr()) == h.nslots(sem.addr()));
    }
    lemma_field(v, young, old, sem, e);
    let st = m.regs.stack;
    let k = m.regs.frame + crate::treaty::FRAME_RECEIVER + r;
    assert(roomy(r1, young, old, st.addr(), k)) by {
        assert(r1.nslots(st.addr()) == h.nslots(st.addr()));
    }
    lemma_field(m.vm, young, old, st, k);
    lemma_field(v, young, old, st, k);
    assert(r1.slot(st.addr(), k) == h.slot(st.addr(), k));
    assert(m1.get(r) == sem);
    crate::value::lemma_tag_bits((n + 1) as i64);
    crate::value::lemma_untag_bits(x);
    lemma_apart_all(h, young, old, sem.addr(), sem.addr());
    lemma_written_back(h, sem.addr() + 8 + 8 * e, y.0, x.0);
    assert(m1.vm.is_a(sem, CLASS_SEMAPHORE)) by {
        reveal(VmView::class_no);
    }
}

} // verus!
