//! What the scheduler does to the run queues and to the queues of semaphores:
//! who waits, in which order, and who runs next.

use crate::heap::HeapView;
use crate::queues::{
    field_stored, laid_out, law_dequeued_first, law_enqueued_last, lemma_field,
    lemma_field_stored, queue_of, queueable, roomy,
};
use crate::treaty::{
    CLASS_SEMAPHORE, LIST_HEAD, LIST_TAIL, NUM_PRIORITIES, PROCESS_MY_LIST, PROCESS_NEXT_LINK,
    PROCESS_PRIORITY, SCHEDULER_QUEUES, SEMAPHORE_QUEUE_HEAD, SEMAPHORE_QUEUE_TAIL,
    SPECIAL_PROCESSOR,
};
use crate::value::{lemma_untag_bits, Value};
use crate::vm::VmView;
use vstd::prelude::*;

verus! {

// ---------------------------------------------------------------------------
// What a change of one queue leaves alone
// ---------------------------------------------------------------------------
/// Two machines differ in the ends of one queue and in the links of some
/// processes alone.
pub open spec fn only_links(
    v: VmView,
    w: VmView,
    young: Seq<usize>,
    old: Seq<usize>,
    list: Value,
    hs: int,
    ts: int,
    procs: Seq<Value>,
) -> bool {
    &&& w == v.on_heap(w.heap)
    &&& laid_out(w.heap, young, old)
    &&& forall|a: Value, j: int|
        #![trigger roomy(v.heap, young, old, a.addr(), j)]
        #![trigger roomy(w.heap, young, old, a.addr(), j)]
        roomy(v.heap, young, old, a.addr(), j) == roomy(w.heap, young, old, a.addr(), j)
    &&& forall|a: Value, j: int|
        roomy(v.heap, young, old, a.addr(), j) && !(a == list && (j == hs || j == ts)) && !(
        procs.contains(a) && (j == PROCESS_NEXT_LINK || j == PROCESS_MY_LIST))
            ==> #[trigger] w.field(a, j) == v.field(a, j)
}

proof fn lemma_only_links_on(
    u: VmView,
    v: VmView,
    w: VmView,
    young: Seq<usize>,
    old: Seq<usize>,
    list: Value,
    hs: int,
    ts: int,
    procs: Seq<Value>,
)
    requires
        only_links(u, v, young, old, list, hs, ts, procs),
        only_links(v, w, young, old, list, hs, ts, procs),
    ensures
        only_links(u, w, young, old, list, hs, ts, procs),
{
    assert forall|a: Value, j: int|
        #![trigger roomy(u.heap, young, old, a.addr(), j)]
        #![trigger roomy(w.heap, young, old, a.addr(), j)]
        roomy(u.heap, young, old, a.addr(), j) == roomy(w.heap, young, old, a.addr(), j) by {
        assert(roomy(u.heap, young, old, a.addr(), j) == roomy(v.heap, young, old, a.addr(), j));
    }
    assert forall|a: Value, j: int|
        roomy(u.heap, young, old, a.addr(), j) && !(a == list && (j == hs || j == ts)) && !(
        procs.contains(a) && (j == PROCESS_NEXT_LINK || j == PROCESS_MY_LIST)) implies #[trigger] w.field(
        a,
        j,
    ) == u.field(a, j) by {
        assert(roomy(v.heap, young, old, a.addr(), j));
        assert(v.field(a, j) == u.field(a, j));
    }
}

/// A store of a link or of an end of the queue.
proof fn lemma_link(
    v: VmView,
    young: Seq<usize>,
    old: Seq<usize>,
    list: Value,
    hs: int,
    ts: int,
    procs: Seq<Value>,
    o: Value,
    i: int,
    x: Value,
)
    requires
        laid_out(v.heap, young, old),
        roomy(v.heap, young, old, o.addr(), i),
        (o == list && (i == hs || i == ts)) || (procs.contains(o) && (i == PROCESS_NEXT_LINK || i
            == PROCESS_MY_LIST)),
    ensures
        only_links(v, v.with_stored(o, i, x), young, old, list, hs, ts, procs),
        field_stored(v, v.with_stored(o, i, x), young, old, o, i, x),
{
    lemma_field_stored(v, young, old, o, i, x);
    assert(v.with_stored(o, i, x) == v.on_heap(v.with_stored(o, i, x).heap)) by {
        reveal(VmView::with_stored);
    }
}

/// Another queue stays as it is.
pub(crate) proof fn lemma_other_queue(
    v: VmView,
    w: VmView,
    young: Seq<usize>,
    old: Seq<usize>,
    list: Value,
    hs: int,
    ts: int,
    procs: Seq<Value>,
    list2: Value,
    hs2: int,
    ts2: int,
    items2: Seq<Value>,
)
    requires
        only_links(v, w, young, old, list, hs, ts, procs),
        queue_of(v, young, old, list2, hs2, ts2, items2),
        list2 != list,
        end_slots(hs, ts),
        end_slots(hs2, ts2),
        forall|k: int| 0 <= k < items2.len() ==> !procs.contains(#[trigger] items2[k]),
    ensures
        queue_of(w, young, old, list2, hs2, ts2, items2),
{
    reveal(queue_of);
    let nx = PROCESS_NEXT_LINK as int;
    let ml = PROCESS_MY_LIST as int;
    assert(w.nil() == v.nil());
    assert(roomy(w.heap, young, old, list2.addr(), hs2) && roomy(
        w.heap,
        young,
        old,
        list2.addr(),
        ts2,
    ));
    assert(w.field(list2, hs2) == v.field(list2, hs2));
    assert(w.field(list2, ts2) == v.field(list2, ts2));
    assert forall|k: int| 0 <= k < items2.len() implies queueable(
        w,
        young,
        old,
        list2,
        #[trigger] items2[k],
    ) && w.field(items2[k], ml) == list2 && w.field(items2[k], nx) == (if k + 1 < items2.len() {
        items2[k + 1]
    } else {
        w.nil()
    }) by {
        let q = items2[k];
        assert(queueable(v, young, old, list2, q));
        assert(!procs.contains(q));
        assert(roomy(w.heap, young, old, q.addr(), nx) && roomy(w.heap, young, old, q.addr(), ml));
        assert(w.field(q, ml) == v.field(q, ml));
        assert(w.field(q, nx) == v.field(q, nx));
    }
}

/// The ends of a queue are not among the link slots of a process.
pub open spec fn end_slots(hs: int, ts: int) -> bool {
    &&& hs != PROCESS_NEXT_LINK && hs != PROCESS_MY_LIST
    &&& ts != PROCESS_NEXT_LINK && ts != PROCESS_MY_LIST
}

// ---------------------------------------------------------------------------
// Joining and leaving
// ---------------------------------------------------------------------------
/// Joining a queue changes no other.
#[verifier::rlimit(60)]
#[verifier::spinoff_prover]
pub(crate) proof fn lemma_enqueued_only(
    v: VmView,
    young: Seq<usize>,
    old: Seq<usize>,
    list: Value,
    hs: int,
    ts: int,
    items: Seq<Value>,
    p: Value,
)
    requires
        queue_of(v, young, old, list, hs, ts, items),
        queueable(v, young, old, list, p),
        !items.contains(p),
        end_slots(hs, ts),
    ensures
        only_links(
            v,
            v.enqueued(list, hs, ts, p),
            young,
            old,
            list,
            hs,
            ts,
            items.push(p),
        ),
{
    reveal(queue_of);
    reveal(VmView::enqueued);
    let nil = v.nil();
    let nx = PROCESS_NEXT_LINK as int;
    let ml = PROCESS_MY_LIST as int;
    let all = items.push(p);
    assert(all[items.len() as int] == p);
    assert(all.contains(p));
    lemma_link(v, young, old, list, hs, ts, all, p, nx, nil);
    let a = v.with_stored(p, nx, nil);
    assert(roomy(a.heap, young, old, p.addr(), ml));
    lemma_link(a, young, old, list, hs, ts, all, p, ml, list);
    let b = a.with_stored(p, ml, list);
    lemma_only_links_on(v, a, b, young, old, list, hs, ts, all);
    assert(roomy(a.heap, young, old, list.addr(), hs) && roomy(a.heap, young, old, list.addr(), ts));
    assert(roomy(b.heap, young, old, list.addr(), hs) && roomy(b.heap, young, old, list.addr(), ts));
    assert(a.field(list, hs) == v.field(list, hs));
    assert(b.field(list, hs) == a.field(list, hs));
    assert(a.field(list, ts) == v.field(list, ts));
    assert(b.field(list, ts) == a.field(list, ts));
    let last = v.field(list, ts);
    let c = if b.field(list, hs) == nil {
        b.with_stored(list, hs, p)
    } else {
        b.with_stored(last, nx, p)
    };
    if items.len() > 0 {
        assert(items[items.len() - 1] == items.last());
        assert(queueable(v, young, old, list, items[items.len() - 1]));
        assert(queueable(v, young, old, list, items[0]));
        assert(all[items.len() - 1] == last);
        assert(all.contains(last));
        assert(roomy(a.heap, young, old, last.addr(), nx));
        assert(roomy(b.heap, young, old, last.addr(), nx));
        lemma_link(b, young, old, list, hs, ts, all, last, nx, p);
    } else {
        lemma_link(b, young, old, list, hs, ts, all, list, hs, p);
    }
    lemma_only_links_on(v, b, c, young, old, list, hs, ts, all);
    assert(roomy(c.heap, young, old, list.addr(), ts));
    lemma_link(c, young, old, list, hs, ts, all, list, ts, p);
    lemma_only_links_on(v, c, c.with_stored(list, ts, p), young, old, list, hs, ts, all);
}

/// Taking the first of a queue changes no other, and the one taken is in
/// none.
#[verifier::rlimit(60)]
#[verifier::spinoff_prover]
pub(crate) proof fn lemma_dequeued_only(
    v: VmView,
    young: Seq<usize>,
    old: Seq<usize>,
    list: Value,
    hs: int,
    ts: int,
    items: Seq<Value>,
)
    requires
        queue_of(v, young, old, list, hs, ts, items),
        items.len() > 0,
        end_slots(hs, ts),
    ensures
        only_links(v, v.dequeued(list, hs, ts).0, young, old, list, hs, ts, items),
        v.dequeued(list, hs, ts).0.field(items[0], PROCESS_MY_LIST as int) == v.nil(),
        v.dequeued(list, hs, ts).0.field(items[0], PROCESS_NEXT_LINK as int) == v.nil(),
{
    reveal(queue_of);
    reveal(VmView::dequeued);
    let nil = v.nil();
    let nx = PROCESS_NEXT_LINK as int;
    let ml = PROCESS_MY_LIST as int;
    let head = items[0];
    assert(queueable(v, young, old, list, items[0]));
    assert(items.contains(head));
    let next = v.field(head, nx);
    lemma_link(v, young, old, list, hs, ts, items, list, hs, next);
    let a = v.with_stored(list, hs, next);
    assert(roomy(a.heap, young, old, list.addr(), ts));
    lemma_link(a, young, old, list, hs, ts, items, list, ts, nil);
    let b = if next == nil {
        a.with_stored(list, ts, nil)
    } else {
        a
    };
    if next == nil {
        lemma_only_links_on(v, a, b, young, old, list, hs, ts, items);
    }
    assert(roomy(b.heap, young, old, head.addr(), nx));
    lemma_link(b, young, old, list, hs, ts, items, head, nx, nil);
    let c = b.with_stored(head, nx, nil);
    lemma_only_links_on(v, b, c, young, old, list, hs, ts, items);
    assert(roomy(c.heap, young, old, head.addr(), ml));
    lemma_link(c, young, old, list, hs, ts, items, head, ml, nil);
    let d = c.with_stored(head, ml, nil);
    lemma_only_links_on(v, c, d, young, old, list, hs, ts, items);
    assert(roomy(c.heap, young, old, head.addr(), nx));
    assert(d.field(head, nx) == c.field(head, nx));
}

/// The store that a splice comes to.
spec fn cut(v: VmView, list: Value, hs: int, ts: int, prev: Value, next: Value) -> VmView {
    let w = if prev == v.nil() {
        v.with_stored(list, hs, next)
    } else {
        v.with_stored(prev, PROCESS_NEXT_LINK as int, next)
    };
    if next == v.nil() {
        w.with_stored(list, ts, prev)
    } else {
        w
    }
}

/// The process after place `k` of a queue, or nil.
pub open spec fn at_place(v: VmView, items: Seq<Value>, k: int) -> Value {
    if 0 <= k < items.len() {
        items[k]
    } else {
        v.nil()
    }
}

/// A splice finds the process in its queue.
#[verifier::rlimit(100)]
#[verifier::spinoff_prover]
proof fn lemma_spliced(
    v: VmView,
    young: Seq<usize>,
    old: Seq<usize>,
    list: Value,
    hs: int,
    ts: int,
    items: Seq<Value>,
    i: int,
    k: int,
    fuel: nat,
)
    requires
        queue_of(v, young, old, list, hs, ts, items),
        0 <= k <= i < items.len(),
        i - k < fuel,
    ensures
        v.spliced(list, hs, ts, items[i], at_place(v, items, k - 1), items[k], fuel) == cut(
            v,
            list,
            hs,
            ts,
            at_place(v, items, i - 1),
            at_place(v, items, i + 1),
        ),
    decreases i - k,
{
    assert(items[k] != v.nil() && (k < i ==> items[k] != items[i]) && v.field(
        items[k],
        PROCESS_NEXT_LINK as int,
    ) == at_place(v, items, k + 1)) by {
        reveal(queue_of);
        assert(queueable(v, young, old, list, items[k]));
    }
    if k < i {
        lemma_spliced(v, young, old, list, hs, ts, items, i, k + 1, (fuel - 1) as nat);
    }
}

/// The processes of a queue are no more than the heap has words.
proof fn lemma_queue_fits(
    v: VmView,
    young: Seq<usize>,
    old: Seq<usize>,
    list: Value,
    hs: int,
    ts: int,
    items: Seq<Value>,
)
    requires
        queue_of(v, young, old, list, hs, ts, items),
    ensures
        items.len() <= v.heap.words(),
{
    reveal(queue_of);
    assert forall|k: int| 0 <= k < items.len() implies v.heap.plausible(
        (#[trigger] items[k]).addr(),
    ) by {
        assert(queueable(v, young, old, list, items[k]));
        lemma_field(v, young, old, items[k], PROCESS_MY_LIST as int);
    }
    assert forall|j: int, k: int|
        0 <= j < items.len() && 0 <= k < items.len() && j != k implies items[j] != items[k] by {
        if j < k {
            assert(items[j] != items[k]);
        } else {
            assert(items[k] != items[j]);
        }
    }
    crate::inheritance::lemma_fewer_than_words(v.heap, items);
}

/// The slots that hold the ends of the queue that an object is or has.
pub open spec fn ends_of(h: HeapView, list: Value, hs: int, ts: int) -> bool {
    if h.hdr(list.addr()).class_field() as u32 == CLASS_SEMAPHORE {
        hs == SEMAPHORE_QUEUE_HEAD && ts == SEMAPHORE_QUEUE_TAIL
    } else {
        hs == LIST_HEAD && ts == LIST_TAIL
    }
}

/// What a cut and the clearing of the links do to the fields.
#[verifier::rlimit(60)]
#[verifier::spinoff_prover]
proof fn lemma_cut(
    v: VmView,
    young: Seq<usize>,
    old: Seq<usize>,
    list: Value,
    hs: int,
    ts: int,
    items: Seq<Value>,
    p: Value,
    prev: Value,
    next: Value,
) -> (u: VmView)
    requires
        laid_out(v.heap, young, old),
        end_slots(hs, ts),
        hs != ts,
        roomy(v.heap, young, old, list.addr(), hs),
        roomy(v.heap, young, old, list.addr(), ts),
        items.contains(p),
        roomy(v.heap, young, old, p.addr(), PROCESS_NEXT_LINK as int),
        roomy(v.heap, young, old, p.addr(), PROCESS_MY_LIST as int),
        prev != v.nil() ==> items.contains(prev) && prev != p && roomy(
            v.heap,
            young,
            old,
            prev.addr(),
            PROCESS_NEXT_LINK as int,
        ),
    ensures
        u == cut(v, list, hs, ts, prev, next).with_stored(
            p,
            PROCESS_NEXT_LINK as int,
            v.nil(),
        ).with_stored(p, PROCESS_MY_LIST as int, v.nil()),
        only_links(v, u, young, old, list, hs, ts, items),
        u.field(list, hs) == (if prev == v.nil() {
            next
        } else {
            v.field(list, hs)
        }),
        u.field(list, ts) == (if next == v.nil() {
            prev
        } else {
            v.field(list, ts)
        }),
        u.field(p, PROCESS_NEXT_LINK as int) == v.nil(),
        u.field(p, PROCESS_MY_LIST as int) == v.nil(),
        prev != v.nil() ==> u.field(prev, PROCESS_NEXT_LINK as int) == next,
        forall|q: Value|
            q != p && q != prev && roomy(
                v.heap,
                young,
                old,
                q.addr(),
                PROCESS_NEXT_LINK as int,
            ) ==> #[trigger] u.field(q, PROCESS_NEXT_LINK as int) == v.field(
                q,
                PROCESS_NEXT_LINK as int,
            ),
        forall|q: Value|
            q != p && roomy(v.heap, young, old, q.addr(), PROCESS_MY_LIST as int)
                ==> #[trigger] u.field(q, PROCESS_MY_LIST as int) == v.field(
                q,
                PROCESS_MY_LIST as int,
            ),
{
    let nil = v.nil();
    let nx = PROCESS_NEXT_LINK as int;
    let ml = PROCESS_MY_LIST as int;
    let w0 = if prev == nil {
        v.with_stored(list, hs, next)
    } else {
        v.with_stored(prev, nx, next)
    };
    if prev == nil {
        lemma_link(v, young, old, list, hs, ts, items, list, hs, next);
    } else {
        lemma_link(v, young, old, list, hs, ts, items, prev, nx, next);
    }
    assert(roomy(w0.heap, young, old, list.addr(), ts) && roomy(
        w0.heap,
        young,
        old,
        list.addr(),
        hs,
    ));
    let w = cut(v, list, hs, ts, prev, next);
    if next == nil {
        lemma_link(w0, young, old, list, hs, ts, items, list, ts, prev);
        lemma_only_links_on(v, w0, w, young, old, list, hs, ts, items);
    }
    assert(roomy(w.heap, young, old, p.addr(), nx) && roomy(w.heap, young, old, p.addr(), ml));
    lemma_link(w, young, old, list, hs, ts, items, p, nx, nil);
    let c = w.with_stored(p, nx, nil);
    lemma_only_links_on(v, w, c, young, old, list, hs, ts, items);
    assert(roomy(c.heap, young, old, p.addr(), nx) && roomy(c.heap, young, old, p.addr(), ml));
    lemma_link(c, young, old, list, hs, ts, items, p, ml, nil);
    let u = c.with_stored(p, ml, nil);
    lemma_only_links_on(v, c, u, young, old, list, hs, ts, items);
    assert(u.field(p, nx) == c.field(p, nx));
    assert(roomy(w.heap, young, old, list.addr(), ts) && roomy(w.heap, young, old, list.addr(), hs));
    assert(roomy(c.heap, young, old, list.addr(), ts) && roomy(c.heap, young, old, list.addr(), hs));
    assert(u.field(list, hs) == c.field(list, hs) && c.field(list, hs) == w.field(list, hs));
    assert(u.field(list, ts) == c.field(list, ts) && c.field(list, ts) == w.field(list, ts));
    assert(w.field(list, hs) == w0.field(list, hs));
    assert(prev != nil ==> w0.field(list, hs) == v.field(list, hs));
    assert(w0.field(list, ts) == v.field(list, ts));
    if prev != nil {
        assert(roomy(w0.heap, young, old, prev.addr(), nx));
        assert(roomy(w.heap, young, old, prev.addr(), nx));
        assert(roomy(c.heap, young, old, prev.addr(), nx));
        assert(u.field(prev, nx) == c.field(prev, nx) && c.field(prev, nx) == w.field(prev, nx));
        assert(w.field(prev, nx) == w0.field(prev, nx));
    }
    assert forall|q: Value|
        q != p && q != prev && roomy(v.heap, young, old, q.addr(), nx) implies #[trigger] u.field(
        q,
        nx,
    ) == v.field(q, nx) by {
        assert(roomy(w0.heap, young, old, q.addr(), nx));
        assert(roomy(w.heap, young, old, q.addr(), nx));
        assert(roomy(c.heap, young, old, q.addr(), nx));
        assert(u.field(q, nx) == c.field(q, nx) && c.field(q, nx) == w.field(q, nx));
        assert(w.field(q, nx) == w0.field(q, nx) && w0.field(q, nx) == v.field(q, nx));
    }
    assert forall|q: Value|
        q != p && roomy(v.heap, young, old, q.addr(), ml) implies #[trigger] u.field(q, ml)
        == v.field(q, ml) by {
        assert(roomy(w0.heap, young, old, q.addr(), ml));
        assert(roomy(w.heap, young, old, q.addr(), ml));
        assert(roomy(c.heap, young, old, q.addr(), ml));
        assert(u.field(q, ml) == c.field(q, ml) && c.field(q, ml) == w.field(q, ml));
        assert(w.field(q, ml) == w0.field(q, ml) && w0.field(q, ml) == v.field(q, ml));
    }
    u
}

/// What is known of one process of a queue.
pub(crate) proof fn lemma_member(
    v: VmView,
    young: Seq<usize>,
    old: Seq<usize>,
    list: Value,
    hs: int,
    ts: int,
    items: Seq<Value>,
    k: int,
)
    requires
        queue_of(v, young, old, list, hs, ts, items),
        0 <= k < items.len(),
    ensures
        queueable(v, young, old, list, items[k]),
        items.contains(items[k]),
        v.field(items[k], PROCESS_MY_LIST as int) == list,
        v.field(items[k], PROCESS_NEXT_LINK as int) == at_place(v, items, k + 1),
        forall|j: int| 0 <= j < items.len() && j != k ==> #[trigger] items[j] != items[k],
{
    reveal(queue_of);
    assert(queueable(v, young, old, list, items[k]));
    assert forall|j: int| 0 <= j < items.len() && j != k implies #[trigger] items[j] != items[k] by {
        if j > k {
            assert(items[k] != items[j]);
        }
    }
}

/// What is known of the ends of a queue.
pub(crate) proof fn lemma_ends(
    v: VmView,
    young: Seq<usize>,
    old: Seq<usize>,
    list: Value,
    hs: int,
    ts: int,
    items: Seq<Value>,
)
    requires
        queue_of(v, young, old, list, hs, ts, items),
    ensures
        laid_out(v.heap, young, old),
        hs != ts,
        roomy(v.heap, young, old, list.addr(), hs),
        roomy(v.heap, young, old, list.addr(), ts),
        v.field(list, hs) == at_place(v, items, 0),
        items.len() > 0 ==> v.field(list, ts) == items.last(),
{
    reveal(queue_of);
}

/// A process taken out of its queue is in none, and the others stay in
/// order.
#[verifier::rlimit(60)]
#[verifier::spinoff_prover]
pub proof fn law_unlisted_leaves_its_queue(
    v: VmView,
    young: Seq<usize>,
    old: Seq<usize>,
    list: Value,
    hs: int,
    ts: int,
    items: Seq<Value>,
    i: int,
)
    requires
        queue_of(v, young, old, list, hs, ts, items),
        ends_of(v.heap, list, hs, ts),
        list != v.nil(),
        0 <= i < items.len(),
    ensures
        queue_of(v.unlisted(items[i]), young, old, list, hs, ts, items.remove(i)),
        only_links(v, v.unlisted(items[i]), young, old, list, hs, ts, items),
        v.unlisted(items[i]).field(items[i], PROCESS_MY_LIST as int) == v.nil(),
        v.unlisted(items[i]).field(items[i], PROCESS_NEXT_LINK as int) == v.nil(),
{
    let p = items[i];
    let prev = at_place(v, items, i - 1);
    let next = at_place(v, items, i + 1);
    lemma_queue_fits(v, young, old, list, hs, ts, items);
    lemma_spliced(v, young, old, list, hs, ts, items, i, 0, v.heap.words());
    lemma_ends(v, young, old, list, hs, ts, items);
    lemma_member(v, young, old, list, hs, ts, items, i);
    if i > 0 {
        lemma_member(v, young, old, list, hs, ts, items, i - 1);
    }
    if i + 1 < items.len() {
        lemma_member(v, young, old, list, hs, ts, items, i + 1);
    }
    lemma_field(v, young, old, list, hs);
    assert(v.head_slot(list) == hs && v.tail_slot(list) == ts) by {
        reveal(VmView::class_no);
        lemma_untag_bits(list);
        assert(v.heap.plausible(list.addr()));
    }
    let u = lemma_cut(v, young, old, list, hs, ts, items, p, prev, next);
    assert(v.unlisted(p) == u) by {
        reveal(VmView::unlisted);
    }
    lemma_rest(v, u, young, old, list, hs, ts, items, i);
}

/// The queue that a cut leaves.
#[verifier::rlimit(60)]
#[verifier::spinoff_prover]
proof fn lemma_rest(
    v: VmView,
    u: VmView,
    young: Seq<usize>,
    old: Seq<usize>,
    list: Value,
    hs: int,
    ts: int,
    items: Seq<Value>,
    i: int,
)
    requires
        queue_of(v, young, old, list, hs, ts, items),
        0 <= i < items.len(),
        only_links(v, u, young, old, list, hs, ts, items),
        u.field(list, hs) == (if i == 0 {
            at_place(v, items, 1)
        } else {
            v.field(list, hs)
        }),
        u.field(list, ts) == (if i + 1 == items.len() {
            at_place(v, items, i - 1)
        } else {
            v.field(list, ts)
        }),
        i > 0 ==> u.field(items[i - 1], PROCESS_NEXT_LINK as int) == at_place(v, items, i + 1),
        forall|q: Value|
            q != items[i] && q != at_place(v, items, i - 1) && roomy(
                v.heap,
                young,
                old,
                q.addr(),
                PROCESS_NEXT_LINK as int,
            ) ==> #[trigger] u.field(q, PROCESS_NEXT_LINK as int) == v.field(
                q,
                PROCESS_NEXT_LINK as int,
            ),
        forall|q: Value|
            q != items[i] && roomy(v.heap, young, old, q.addr(), PROCESS_MY_LIST as int)
                ==> #[trigger] u.field(q, PROCESS_MY_LIST as int) == v.field(
                q,
                PROCESS_MY_LIST as int,
            ),
    ensures
        queue_of(u, young, old, list, hs, ts, items.remove(i)),
{
    let nil = v.nil();
    let nx = PROCESS_NEXT_LINK as int;
    let ml = PROCESS_MY_LIST as int;
    let rest = items.remove(i);
    lemma_ends(v, young, old, list, hs, ts, items);
    lemma_member(v, young, old, list, hs, ts, items, i);
    assert(u.nil() == nil);
    if rest.len() > 0 {
        if i == items.len() - 1 {
            assert(rest.last() == items[i - 1]);
        } else {
            assert(rest.last() == items.last());
        }
    }
    assert(roomy(u.heap, young, old, list.addr(), ts) && roomy(u.heap, young, old, list.addr(), hs));
    assert forall|k: int| 0 <= k < rest.len() implies queueable(
        u,
        young,
        old,
        list,
        #[trigger] rest[k],
    ) && u.field(rest[k], ml) == list && u.field(rest[k], nx) == (if k + 1 < rest.len() {
        rest[k + 1]
    } else {
        nil
    }) by {
        let n = if k < i {
            k
        } else {
            k + 1
        };
        let q = items[n];
        assert(rest[k] == q);
        lemma_member(v, young, old, list, hs, ts, items, n);
        assert(q != items[i]);
        assert(roomy(u.heap, young, old, q.addr(), nx) && roomy(u.heap, young, old, q.addr(), ml));
        if n != i - 1 {
            assert(q != at_place(v, items, i - 1));
        }
    }
    assert forall|j: int, k: int| 0 <= j < k < rest.len() implies #[trigger] rest[j]
        != #[trigger] rest[k] by {
        let a = if j < i {
            j
        } else {
            j + 1
        };
        let b = if k < i {
            k
        } else {
            k + 1
        };
        assert(rest[j] == items[a] && rest[k] == items[b]);
        lemma_member(v, young, old, list, hs, ts, items, b);
    }
    reveal(queue_of);
}

/// A process whose list is nil is in no queue.
pub proof fn law_unlisted_is_in_no_queue(
    v: VmView,
    young: Seq<usize>,
    old: Seq<usize>,
    list: Value,
    hs: int,
    ts: int,
    items: Seq<Value>,
    p: Value,
)
    requires
        queue_of(v, young, old, list, hs, ts, items),
        list != v.nil(),
        v.field(p, PROCESS_MY_LIST as int) == v.nil(),
    ensures
        !items.contains(p),
{
    reveal(queue_of);
    if items.contains(p) {
        let k = choose|k: int| 0 <= k < items.len() && items[k] == p;
        assert(queueable(v, young, old, list, items[k]));
    }
}

// ---------------------------------------------------------------------------
// The run queues
// ---------------------------------------------------------------------------
/// The run queue of level `k`.
pub open spec fn queue_at(v: VmView, k: int) -> Value {
    v.field(v.run_queues(), k)
}

/// The run queues hold these processes, those of the lowest priority first,
/// and each in the order in which they are to run.
pub open spec fn schedule(
    v: VmView,
    young: Seq<usize>,
    old: Seq<usize>,
    qs: Seq<Seq<Value>>,
) -> bool {
    &&& qs.len() == NUM_PRIORITIES
    &&& SPECIAL_PROCESSOR < v.specials.len()
    &&& roomy(
        v.heap,
        young,
        old,
        v.specials[SPECIAL_PROCESSOR as int].addr(),
        SCHEDULER_QUEUES as int,
    )
    &&& roomy(v.heap, young, old, v.run_queues().addr(), NUM_PRIORITIES - 1)
    &&& forall|k: int| 0 <= k < NUM_PRIORITIES ==> #[trigger] level_holds(v, young, old, k, qs[k])
    &&& forall|j: int, k: int|
        0 <= j < k < NUM_PRIORITIES ==> #[trigger] queue_at(v, j) != #[trigger] queue_at(v, k)
}

/// The run queue of level `k` holds these processes.
pub open spec fn level_holds(
    v: VmView,
    young: Seq<usize>,
    old: Seq<usize>,
    k: int,
    items: Seq<Value>,
) -> bool {
    &&& queue_at(v, k) != v.nil()
    &&& outside(v, queue_at(v, k))
    &&& queue_of(v, young, old, queue_at(v, k), LIST_HEAD as int, LIST_TAIL as int, items)
    &&& forall|i: int| 0 <= i < items.len() ==> apart(v, #[trigger] items[i])
}

/// An object is none of the scheduler's: neither the scheduler, nor its array
/// of run queues, nor a run queue.
pub open spec fn apart(v: VmView, x: Value) -> bool {
    &&& outside(v, x)
    &&& forall|k: int| 0 <= k < NUM_PRIORITIES ==> #[trigger] queue_at(v, k) != x
}

/// An object is neither the scheduler nor its array of run queues.
pub open spec fn outside(v: VmView, x: Value) -> bool {
    x != v.specials[SPECIAL_PROCESSOR as int] && x != v.run_queues()
}

/// A process stands in no run queue but perhaps one.
pub open spec fn stands_in_no_other(qs: Seq<Seq<Value>>, c: int, x: Value) -> bool {
    forall|k: int| 0 <= k < qs.len() && k != c ==> !(#[trigger] qs[k]).contains(x)
}

/// The scheduler's objects are found where they were.
pub(crate) proof fn lemma_same_queues(
    v: VmView,
    w: VmView,
    young: Seq<usize>,
    old: Seq<usize>,
    qs: Seq<Seq<Value>>,
    list: Value,
    hs: int,
    ts: int,
    procs: Seq<Value>,
)
    requires
        schedule(v, young, old, qs),
        only_links(v, w, young, old, list, hs, ts, procs),
        outside(v, list),
        forall|i: int| 0 <= i < procs.len() ==> outside(v, #[trigger] procs[i]),
    ensures
        w.run_queues() == v.run_queues(),
        w.specials == v.specials,
        w.nil() == v.nil(),
        forall|k: int| 0 <= k < NUM_PRIORITIES ==> #[trigger] queue_at(w, k) == queue_at(v, k),
        forall|x: Value| #[trigger] outside(w, x) == outside(v, x),
        forall|x: Value| #[trigger] apart(w, x) == apart(v, x),
        roomy(
            w.heap,
            young,
            old,
            w.specials[SPECIAL_PROCESSOR as int].addr(),
            SCHEDULER_QUEUES as int,
        ),
        roomy(w.heap, young, old, w.run_queues().addr(), NUM_PRIORITIES - 1),
{
    let s = v.specials[SPECIAL_PROCESSOR as int];
    let a = v.run_queues();
    assert(!procs.contains(a) && !procs.contains(s)) by {
        if procs.contains(a) {
            let i = choose|i: int| 0 <= i < procs.len() && procs[i] == a;
            assert(outside(v, procs[i]));
        }
        if procs.contains(s) {
            let i = choose|i: int| 0 <= i < procs.len() && procs[i] == s;
            assert(outside(v, procs[i]));
        }
    }
    assert(w.field(s, SCHEDULER_QUEUES as int) == v.field(s, SCHEDULER_QUEUES as int));
    assert forall|k: int| 0 <= k < NUM_PRIORITIES implies #[trigger] queue_at(w, k) == queue_at(
        v,
        k,
    ) by {
        assert(roomy(v.heap, young, old, a.addr(), k));
        assert(w.field(a, k) == v.field(a, k));
    }
    assert forall|x: Value| #[trigger] apart(w, x) == apart(v, x) by {
        assert(outside(w, x) == outside(v, x));
        assert forall|k: int| 0 <= k < NUM_PRIORITIES implies queue_at(w, k) == #[trigger] queue_at(
            v,
            k,
        ) by {
            assert(queue_at(w, k) == queue_at(v, k));
        }
    }
}

/// One run queue changes and the others stay.
#[verifier::rlimit(40)]
pub(crate) proof fn lemma_level_changed(
    v: VmView,
    w: VmView,
    young: Seq<usize>,
    old: Seq<usize>,
    qs: Seq<Seq<Value>>,
    c: int,
    procs: Seq<Value>,
    items: Seq<Value>,
)
    requires
        schedule(v, young, old, qs),
        0 <= c < NUM_PRIORITIES,
        only_links(
            v,
            w,
            young,
            old,
            queue_at(v, c),
            LIST_HEAD as int,
            LIST_TAIL as int,
            procs,
        ),
        queue_of(
            w,
            young,
            old,
            queue_at(v, c),
            LIST_HEAD as int,
            LIST_TAIL as int,
            items,
        ),
        forall|i: int|
            0 <= i < procs.len() ==> outside(v, #[trigger] procs[i]) && stands_in_no_other(
                qs,
                c,
                procs[i],
            ),
        forall|i: int| 0 <= i < items.len() ==> apart(v, #[trigger] items[i]),
    ensures
        schedule(w, young, old, qs.update(c, items)),
        w.run_queues() == v.run_queues(),
        queue_at(w, c) == queue_at(v, c),
{
    let h = LIST_HEAD as int;
    let t = LIST_TAIL as int;
    let list = queue_at(v, c);
    let rs = qs.update(c, items);
    assert(level_holds(v, young, old, c, qs[c]));
    lemma_same_queues(v, w, young, old, qs, list, h, t, procs);
    assert forall|k: int| 0 <= k < NUM_PRIORITIES implies #[trigger] level_holds(
        w,
        young,
        old,
        k,
        rs[k],
    ) by {
        assert(level_holds(v, young, old, k, qs[k]));
        assert(queue_at(w, k) == queue_at(v, k));
        assert(outside(w, queue_at(v, k)));
        if k != c {
            assert(queue_at(v, k) != list) by {
                if k < c {
                    assert(queue_at(v, k) != queue_at(v, c));
                } else {
                    assert(queue_at(v, c) != queue_at(v, k));
                }
            }
            assert forall|i: int| 0 <= i < qs[k].len() implies !procs.contains(
                #[trigger] qs[k][i],
            ) by {
                if procs.contains(qs[k][i]) {
                    let j = choose|j: int| 0 <= j < procs.len() && procs[j] == qs[k][i];
                    assert(stands_in_no_other(qs, c, procs[j]));
                    assert(qs[k].contains(qs[k][i]));
                }
            }
            lemma_other_queue(v, w, young, old, list, h, t, procs, queue_at(v, k), h, t, qs[k]);
        }
        assert forall|i: int| 0 <= i < rs[k].len() implies apart(w, #[trigger] rs[k][i]) by {
            assert(apart(v, rs[k][i]));
        }
    }
    assert forall|j: int, k: int| 0 <= j < k < NUM_PRIORITIES implies #[trigger] queue_at(w, j)
        != #[trigger] queue_at(w, k) by {
        assert(queue_at(v, j) != queue_at(v, k));
    }
}

/// A change of another queue leaves the run queues as they are.
#[verifier::rlimit(40)]
pub(crate) proof fn lemma_levels_kept(
    v: VmView,
    w: VmView,
    young: Seq<usize>,
    old: Seq<usize>,
    qs: Seq<Seq<Value>>,
    list: Value,
    hs: int,
    ts: int,
    procs: Seq<Value>,
)
    requires
        schedule(v, young, old, qs),
        only_links(v, w, young, old, list, hs, ts, procs),
        end_slots(hs, ts),
        outside(v, list),
        forall|k: int| 0 <= k < NUM_PRIORITIES ==> #[trigger] queue_at(v, k) != list,
        forall|i: int|
            0 <= i < procs.len() ==> outside(v, #[trigger] procs[i]) && stands_in_no_other(
                qs,
                -1,
                procs[i],
            ),
    ensures
        schedule(w, young, old, qs),
        w.run_queues() == v.run_queues(),
{
    let h = LIST_HEAD as int;
    let t = LIST_TAIL as int;
    lemma_same_queues(v, w, young, old, qs, list, hs, ts, procs);
    assert forall|k: int| 0 <= k < NUM_PRIORITIES implies #[trigger] level_holds(
        w,
        young,
        old,
        k,
        qs[k],
    ) by {
        assert(level_holds(v, young, old, k, qs[k]));
        assert(queue_at(w, k) == queue_at(v, k));
        assert(outside(w, queue_at(v, k)));
        assert forall|i: int| 0 <= i < qs[k].len() implies !procs.contains(#[trigger] qs[k][i]) by {
            if procs.contains(qs[k][i]) {
                let j = choose|j: int| 0 <= j < procs.len() && procs[j] == qs[k][i];
                assert(stands_in_no_other(qs, -1, procs[j]));
                assert(qs[k].contains(qs[k][i]));
            }
        }
        lemma_other_queue(v, w, young, old, list, hs, ts, procs, queue_at(v, k), h, t, qs[k]);
        assert forall|i: int| 0 <= i < qs[k].len() implies apart(w, #[trigger] qs[k][i]) by {
            assert(apart(v, qs[k][i]));
        }
    }
    assert forall|j: int, k: int| 0 <= j < k < NUM_PRIORITIES implies #[trigger] queue_at(w, j)
        != #[trigger] queue_at(w, k) by {
        assert(queue_at(v, j) != queue_at(v, k));
    }
}

/// A process of one queue stands in no run queue but that one.
pub(crate) proof fn lemma_stands_alone(
    v: VmView,
    young: Seq<usize>,
    old: Seq<usize>,
    qs: Seq<Seq<Value>>,
    c: int,
    list: Value,
    x: Value,
)
    requires
        schedule(v, young, old, qs),
        v.field(x, PROCESS_MY_LIST as int) == list,
        forall|k: int| 0 <= k < NUM_PRIORITIES && k != c ==> #[trigger] queue_at(v, k) != list,
    ensures
        stands_in_no_other(qs, c, x),
{
    assert forall|k: int| 0 <= k < qs.len() && k != c implies !(#[trigger] qs[k]).contains(x) by {
        assert(level_holds(v, young, old, k, qs[k]));
        if qs[k].contains(x) {
            let i = choose|i: int| 0 <= i < qs[k].len() && qs[k][i] == x;
            lemma_member(
                v,
                young,
                old,
                queue_at(v, k),
                LIST_HEAD as int,
                LIST_TAIL as int,
                qs[k],
                i,
            );
        }
    }
}

/// The processes of a run queue stand in no other.
pub(crate) proof fn lemma_level_alone(
    v: VmView,
    young: Seq<usize>,
    old: Seq<usize>,
    qs: Seq<Seq<Value>>,
    c: int,
    i: int,
)
    requires
        schedule(v, young, old, qs),
        0 <= c < NUM_PRIORITIES,
        0 <= i < qs[c].len(),
    ensures
        stands_in_no_other(qs, c, qs[c][i]),
        apart(v, qs[c][i]),
{
    let h = LIST_HEAD as int;
    let t = LIST_TAIL as int;
    assert(level_holds(v, young, old, c, qs[c]));
    lemma_member(v, young, old, queue_at(v, c), h, t, qs[c], i);
    assert forall|k: int| 0 <= k < NUM_PRIORITIES && k != c implies #[trigger] queue_at(v, k)
        != queue_at(v, c) by {
        if k < c {
            assert(queue_at(v, k) != queue_at(v, c));
        } else {
            assert(queue_at(v, c) != queue_at(v, k));
        }
    }
    lemma_stands_alone(v, young, old, qs, c, queue_at(v, c), qs[c][i]);
}

/// A process that can be put in a run queue: it stands in none.
pub open spec fn idle(v: VmView, young: Seq<usize>, old: Seq<usize>, p: Value) -> bool {
    &&& p != v.nil()
    &&& apart(v, p)
    &&& roomy(v.heap, young, old, p.addr(), PROCESS_NEXT_LINK as int)
    &&& roomy(v.heap, young, old, p.addr(), PROCESS_MY_LIST as int)
}

/// The level at which a process runs: its priority less one, and the lowest
/// or the highest where it has none.
pub open spec fn level(v: VmView, p: Value) -> int {
    let n = v.field(p, PROCESS_PRIORITY as int).int_value();
    if n < 1 {
        0
    } else if n > NUM_PRIORITIES {
        NUM_PRIORITIES - 1
    } else {
        n - 1
    }
}

/// A process that is made runnable comes last among those of its priority;
/// no other moves.
#[verifier::rlimit(40)]
pub proof fn law_made_runnable_comes_last(
    v: VmView,
    young: Seq<usize>,
    old: Seq<usize>,
    qs: Seq<Seq<Value>>,
    p: Value,
)
    requires
        schedule(v, young, old, qs),
        idle(v, young, old, p),
        stands_in_no_other(qs, -1, p),
    ensures
        schedule(
            v.made_runnable(p),
            young,
            old,
            qs.update(level(v, p), qs[level(v, p)].push(p)),
        ),
        only_links(
            v,
            v.made_runnable(p),
            young,
            old,
            queue_at(v, level(v, p)),
            LIST_HEAD as int,
            LIST_TAIL as int,
            qs[level(v, p)].push(p),
        ),
{
    reveal(VmView::made_runnable);
    let h = LIST_HEAD as int;
    let t = LIST_TAIL as int;
    let c = level(v, p);
    let items = qs[c];
    let list = queue_at(v, c);
    assert(level_holds(v, young, old, c, items));
    assert(!items.contains(p)) by {
        assert(!qs[c].contains(p));
    }
    assert(v.made_runnable(p) == v.enqueued(list, h, t, p));
    assert(queue_at(v, c) != p);
    law_enqueued_last(v, young, old, list, h, t, items, p);
    lemma_enqueued_only(v, young, old, list, h, t, items, p);
    let all = items.push(p);
    assert forall|i: int| 0 <= i < all.len() implies apart(v, #[trigger] all[i])
        && stands_in_no_other(qs, c, all[i]) by {
        if i < items.len() {
            lemma_level_alone(v, young, old, qs, c, i);
        } else {
            assert(stands_in_no_other(qs, -1, p));
        }
    }
    lemma_level_changed(v, v.enqueued(list, h, t, p), young, old, qs, c, all, all);
}

proof fn lemma_next(
    v: VmView,
    young: Seq<usize>,
    old: Seq<usize>,
    qs: Seq<Seq<Value>>,
    prio: nat,
    k: int,
)
    requires
        schedule(v, young, old, qs),
        0 <= k < prio <= NUM_PRIORITIES,
        qs[k].len() > 0,
        forall|j: int| k < j < prio ==> (#[trigger] qs[j]).len() == 0,
    ensures
        v.next_below(prio) == v.dequeued(queue_at(v, k), LIST_HEAD as int, LIST_TAIL as int),
    decreases prio,
{
    let j = prio - 1;
    assert(level_holds(v, young, old, j, qs[j]));
    law_dequeued_first(
        v,
        young,
        old,
        queue_at(v, j),
        LIST_HEAD as int,
        LIST_TAIL as int,
        qs[j],
    );
    if j > k {
        assert(qs[j].len() == 0);
        lemma_next(v, young, old, qs, j as nat, k);
    }
}

proof fn lemma_next_none(
    v: VmView,
    young: Seq<usize>,
    old: Seq<usize>,
    qs: Seq<Seq<Value>>,
    prio: nat,
)
    requires
        schedule(v, young, old, qs),
        prio <= NUM_PRIORITIES,
        forall|j: int| 0 <= j < prio ==> (#[trigger] qs[j]).len() == 0,
    ensures
        v.next_below(prio) == (v, None::<Value>),
    decreases prio,
{
    if prio > 0 {
        let j = prio - 1;
        assert(level_holds(v, young, old, j, qs[j]));
        assert(qs[j].len() == 0);
        law_dequeued_first(
            v,
            young,
            old,
            queue_at(v, j),
            LIST_HEAD as int,
            LIST_TAIL as int,
            qs[j],
        );
        lemma_next_none(v, young, old, qs, j as nat);
    }
}

/// Level `k` is the highest one with a process.
pub open spec fn is_top(qs: Seq<Seq<Value>>, k: int) -> bool {
    &&& 0 <= k < qs.len()
    &&& qs[k].len() > 0
    &&& forall|j: int| k < j < qs.len() ==> (#[trigger] qs[j]).len() == 0
}

/// The process that runs next is the one that has waited longest among those
/// of the highest priority that has any. It leaves its queue; no other
/// process moves. There is none only where all run queues are empty.
#[verifier::rlimit(40)]
pub proof fn law_next_is_first_of_the_highest(
    v: VmView,
    young: Seq<usize>,
    old: Seq<usize>,
    qs: Seq<Seq<Value>>,
)
    requires
        schedule(v, young, old, qs),
    ensures
        forall|k: int| #[trigger]
            is_top(qs, k) ==> v.next_runnable().1 == Some(qs[k][0]) && schedule(
                v.next_runnable().0,
                young,
                old,
                qs.update(k, qs[k].skip(1)),
            ) && v.next_runnable().0.field(qs[k][0], PROCESS_MY_LIST as int) == v.nil()
                && only_links(
                v,
                v.next_runnable().0,
                young,
                old,
                queue_at(v, k),
                LIST_HEAD as int,
                LIST_TAIL as int,
                qs[k],
            ),
        (forall|k: int| 0 <= k < NUM_PRIORITIES ==> (#[trigger] qs[k]).len() == 0)
            ==> v.next_runnable() == (v, None::<Value>),
{
    let h = LIST_HEAD as int;
    let t = LIST_TAIL as int;
    assert forall|k: int| #[trigger] is_top(qs, k) implies v.next_runnable().1 == Some(qs[k][0])
        && schedule(v.next_runnable().0, young, old, qs.update(k, qs[k].skip(1)))
        && v.next_runnable().0.field(qs[k][0], PROCESS_MY_LIST as int) == v.nil() && only_links(
        v,
        v.next_runnable().0,
        young,
        old,
        queue_at(v, k),
        h,
        t,
        qs[k],
    ) by {
        let items = qs[k];
        let list = queue_at(v, k);
        lemma_next(v, young, old, qs, NUM_PRIORITIES as nat, k);
        assert(level_holds(v, young, old, k, items));
        law_dequeued_first(v, young, old, list, h, t, items);
        lemma_dequeued_only(v, young, old, list, h, t, items);
        assert forall|i: int| 0 <= i < items.len() implies apart(v, #[trigger] items[i])
            && stands_in_no_other(qs, k, items[i]) by {
            lemma_level_alone(v, young, old, qs, k, i);
        }
        let rest = items.skip(1);
        assert forall|i: int| 0 <= i < rest.len() implies apart(v, #[trigger] rest[i]) by {
            assert(apart(v, items[i + 1]));
        }
        lemma_level_changed(v, v.next_runnable().0, young, old, qs, k, items, rest);
    }
    if forall|k: int| 0 <= k < NUM_PRIORITIES ==> (#[trigger] qs[k]).len() == 0 {
        lemma_next_none(v, young, old, qs, NUM_PRIORITIES as nat);
    }
}

} // verus!
