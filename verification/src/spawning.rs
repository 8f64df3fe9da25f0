//! A new process keeps the machine sound, and can be made the active one.

use crate::activation::{lemma_steady_on, lemma_still_known, runnable};
use crate::graph::listed;
use crate::heap::HeapView;
use crate::installs::present;
use crate::process::{FIRST_SERIAL, INITIAL_STACK_SLOTS};
use crate::remembered::flagged;
use crate::safepoints::{
    lemma_compacted_vm, lemma_nil_old, lemma_scavenged, nil_first, root_kept, roots_kept,
};
use crate::soundness::law_store_keeps_heap_sound;
use crate::upkeep::{
    law_plain_store_keeps_sound, law_store_keeps_sound, lemma_attempt, lemma_stored_in, one_more,
    steady, tended, Lists,
};
use crate::value::Value;
use crate::vm::VmView;
use crate::treaty::{
    CLASS_PROCESS, CLASS_STACK, FMT_FIXED, FMT_PTRS, FRAME_CALLER, FRAME_FLAGS, FRAME_METHOD,
    FRAME_RECEIVER, FRAME_RETINFO, PROCESS_FRAME_OFFSET, PROCESS_NUM_VM_SLOTS, PROCESS_PC,
    PROCESS_PRIORITY, PROCESS_SERIAL_COUNTER, PROCESS_STACK, SPECIAL_NIL, STACK_FRAMES_BASE,
    STACK_OWNER,
};
use vstd::prelude::*;

verus! {

// ---------------------------------------------------------------------------
// Allocations between collections
// ---------------------------------------------------------------------------
/// The machine's references are on the same objects.
pub open spec fn settled(v: VmView, w: VmView) -> bool {
    &&& roots_kept(v, w)
    &&& w.specials.len() == v.specials.len()
    &&& w.class_table.len() == v.class_table.len()
    &&& w.temp_roots.len() == v.temp_roots.len()
    &&& w.nil() == v.nil()
}

proof fn lemma_settled_on(u: VmView, v: VmView, w: VmView)
    requires
        settled(u, v),
        settled(v, w),
    ensures
        settled(u, w),
{
    assert forall|i: int| 0 <= i < u.roots().len() implies root_kept(
        u,
        u.roots()[i],
        w,
        #[trigger] w.roots()[i],
    ) by {
        let x = u.roots()[i];
        assert(root_kept(u, u.roots()[i], v, v.roots()[i]));
        assert(v.heap.plausible(x.addr()) == u.heap.plausible(x.addr()));
        assert(root_kept(v, v.roots()[i], w, w.roots()[i]));
    }
    assert forall|i: int, j: int|
        0 <= i < u.roots().len() && 0 <= j < u.roots().len() && u.roots()[i]
            != u.roots()[j] implies #[trigger] w.roots()[i] != #[trigger] w.roots()[j] by {
        assert(v.roots()[i] != v.roots()[j]);
    }
}

/// One object more leaves the machine's references on the same objects, none
/// of which is the new one.
proof fn lemma_settled_more(
    v: VmView,
    young: Seq<usize>,
    old: Seq<usize>,
    live: Set<int>,
    h: HeapView,
    x: Value,
    l: Lists,
)
    requires
        tended(v, young, old, live),
        nil_first(v, old),
        one_more(v, young, old, live, v.on_heap(h), x, l),
    ensures
        settled(v, v.on_heap(h)),
        nil_first(v.on_heap(h), l.old),
        forall|i: int| 0 <= i < v.roots().len() ==> #[trigger] v.on_heap(h).roots()[i] != x,
{
    let w = v.on_heap(h);
    let b = v.objects(young, old, live);
    assert(w.roots() =~= v.roots());
    assert(forall|i: int| 0 <= i < v.roots().len() ==> b.known(#[trigger] v.roots()[i])) by {
        reveal(tended);
        reveal(VmView::sound);
    }
    assert(l.of(w).sound()) by {
        reveal(tended);
        reveal(VmView::sound);
    }
    assert(l.of(w).lists(x.addr()));
    crate::soundness::lemma_lies(l.of(w), x.addr());
    assert forall|i: int| 0 <= i < v.roots().len() implies root_kept(
        v,
        v.roots()[i],
        w,
        #[trigger] w.roots()[i],
    ) && w.roots()[i] != x by {
        let y = v.roots()[i];
        if y.tagged_ptr() && v.heap.plausible(y.addr()) {
            assert(b.has(y.addr()));
            assert(b.lists(y.addr()));
            assert(present(young, old, y.addr()));
        }
    }
    assert(l.old.subrange(0, old.len() as int)[0] == l.old[0]);
}

/// An allocation outside of a run, which collects when there is no room.
#[verifier::rlimit(60)]
proof fn lemma_allocated(
    v: VmView,
    young: Seq<usize>,
    old: Seq<usize>,
    live: Set<int>,
    class: u32,
    format: u64,
    n: int,
) -> (l: Lists)
    requires
        tended(v, young, old, live),
        nil_first(v, old),
        0 < class <= crate::heap::MAX_CLASS_INDEX,
        0 <= n < 0x400_0000_0000,
        format == FMT_FIXED || format == FMT_PTRS,
    ensures
        v.allocated(class, format, n) matches Ok((w, x)) ==> {
            &&& tended(w, l.young, l.old, l.live)
            &&& nil_first(w, l.old)
            &&& settled(v, w)
            &&& x.tagged_ptr()
            &&& l.of(w).has(x.addr())
            &&& w.heap.nslots(x.addr()) == n
            &&& !w.heap.hdr(x.addr()).byte_format()
            &&& forall|i: int| 0 <= i < w.roots().len() ==> #[trigger] w.roots()[i] != x
        },
{
    reveal(VmView::allocated);
    let nil = v.nil();
    lemma_nil_old(v, young, old, live);
    match v.heap.attempt(class, format, n, nil) {
        Some((h, x)) => {
            let l = lemma_attempt(v, young, old, live, class, format, n, nil);
            lemma_settled_more(v, young, old, live, h, x, l);
            l
        },
        None => {
            let l1 = lemma_scavenged(v, young, old, live);
            match v.scavenged() {
                Err(_) => l1,
                Ok(v1) => {
                    assert(settled(v, v1));
                    lemma_nil_old(v1, l1.young, l1.old, l1.live);
                    match v1.heap.attempt(class, format, n, nil) {
                        Some((h, x)) => {
                            let l = lemma_attempt(
                                v1,
                                l1.young,
                                l1.old,
                                l1.live,
                                class,
                                format,
                                n,
                                nil,
                            );
                            lemma_settled_more(v1, l1.young, l1.old, l1.live, h, x, l);
                            lemma_settled_on(v, v1, v1.on_heap(h));
                            l
                        },
                        None => {
                            let l2 = lemma_compacted_vm(v1, l1.young, l1.old, l1.live);
                            match v1.compacted() {
                                Err(_) => l2,
                                Ok(v2) => {
                                    assert(settled(v1, v2));
                                    lemma_settled_on(v, v1, v2);
                                    lemma_nil_old(v2, l2.young, l2.old, l2.live);
                                    let l = lemma_attempt(
                                        v2,
                                        l2.young,
                                        l2.old,
                                        l2.live,
                                        class,
                                        format,
                                        n,
                                        nil,
                                    );
                                    if let Some((h, x)) = v2.heap.attempt(class, format, n, nil) {
                                        lemma_settled_more(
                                            v2,
                                            l2.young,
                                            l2.old,
                                            l2.live,
                                            h,
                                            x,
                                            l,
                                        );
                                        lemma_settled_on(v, v2, v2.on_heap(h));
                                    }
                                    l
                                },
                            }
                        },
                    }
                },
            }
        },
    }
}

/// Temporary roots replaced by known values.
proof fn lemma_temp_roots(
    v: VmView,
    young: Seq<usize>,
    old: Seq<usize>,
    live: Set<int>,
    t: Seq<Value>,
)
    requires
        tended(v, young, old, live),
        forall|i: int|
            0 <= i < t.len() ==> v.objects(young, old, live).known(#[trigger] t[i]),
    ensures
        tended(VmView { temp_roots: t, ..v }, young, old, live),
{
    let w = VmView { temp_roots: t, ..v };
    let b = v.objects(young, old, live);
    reveal(tended);
    reveal(VmView::sound);
    assert(w.objects(young, old, live) == b);
    assert(w.running_stack() == v.running_stack());
    let a = (v.specials.len() + v.class_table.len()) as int;
    assert forall|i: int| 0 <= i < w.roots().len() implies b.known(#[trigger] w.roots()[i]) by {
        if i < a {
            assert(w.roots()[i] == v.roots()[i]);
        } else if i < a + t.len() {
            assert(w.roots()[i] == t[i - a]);
        } else {
            let j = i - t.len() + v.temp_roots.len();
            assert(w.roots()[i] == v.roots()[j]);
        }
    }
}

/// Temporary roots are known.
proof fn lemma_temp_known(
    v: VmView,
    young: Seq<usize>,
    old: Seq<usize>,
    live: Set<int>,
    i: int,
)
    requires
        tended(v, young, old, live),
        0 <= i < v.temp_roots.len(),
    ensures
        v.objects(young, old, live).known(v.temp_roots[i]),
        v.roots()[v.specials.len() + v.class_table.len() + i] == v.temp_roots[i],
        v.roots()[v.roots().len() - 1] == v.active,
        v.specials.len() + v.class_table.len() + i < v.roots().len() - 1,
{
    reveal(tended);
    reveal(VmView::sound);
    let k = v.specials.len() + v.class_table.len() + i;
    assert(v.roots()[k] == v.temp_roots[i]);
    assert(v.objects(young, old, live).known(v.roots()[k]));
}

// ---------------------------------------------------------------------------
// A process poised to run
// ---------------------------------------------------------------------------
/// The machine is sound and steady, and its objects hold what they held but
/// for one slot.
pub open spec fn one_slot(
    v: VmView,
    w: VmView,
    young: Seq<usize>,
    old: Seq<usize>,
    live: Set<int>,
    a: int,
    i: int,
    x: Value,
) -> bool {
    &&& tended(w, young, old, live)
    &&& steady(v, w, young, old)
    &&& w == v.on_heap(w.heap)
    &&& w.heap.slot(a, i) == x
    &&& forall|o: int, j: int|
        present(young, old, o) && !v.heap.hdr(o).byte_format() && 0 <= j < v.heap.nslots(o) && (o
            != a || j != i) ==> #[trigger] w.heap.slot(o, j) == v.heap.slot(o, j)
}

/// A slot of a new object stored behind the barrier.
proof fn lemma_slot_stored(
    v: VmView,
    young: Seq<usize>,
    old: Seq<usize>,
    live: Set<int>,
    a: int,
    i: int,
    x: Value,
)
    requires
        tended(v, young, old, live),
        v.objects(young, old, live).lists(a),
        0 <= i < v.heap.nslots(a),
        v.objects(young, old, live).known(x),
        a != v.active.addr(),
    ensures
        one_slot(v, v.on_heap(v.heap.store(a, i, x)), young, old, live, a, i, x),
{
    let b = v.objects(young, old, live);
    law_store_keeps_sound(v, young, old, live, a, i, x);
    assert(b.sound() && flagged(v.heap, old) && forall|k: int|
        0 <= k < v.heap.ssb.len() ==> listed(old, (#[trigger] v.heap.ssb[k]) as int)) by {
        reveal(tended);
        reveal(VmView::sound);
    }
    lemma_stored_in(b, a, i, x);
    let h = v.heap.store(a, i, x);
    assert forall|o: int, j: int|
        present(young, old, o) && !v.heap.hdr(o).byte_format() && 0 <= j < v.heap.nslots(o) && (o
            != a || j != i) implies #[trigger] h.slot(o, j) == v.heap.slot(o, j) by {
        assert(b.lists(o));
    }
}

/// An integer set in a slot of a new object.
proof fn lemma_slot_set(
    v: VmView,
    young: Seq<usize>,
    old: Seq<usize>,
    live: Set<int>,
    a: int,
    i: int,
    n: i64,
)
    requires
        tended(v, young, old, live),
        v.objects(young, old, live).lists(a),
        !v.heap.hdr(a).byte_format(),
        0 <= i < v.heap.nslots(a),
        a != v.active.addr(),
    ensures
        one_slot(
            v,
            v.on_heap(v.heap.set_slot(a, i, crate::value::tag(n))),
            young,
            old,
            live,
            a,
            i,
            crate::value::tag(n),
        ),
{
    let b = v.objects(young, old, live);
    let x = crate::value::tag(n);
    crate::value::lemma_tag_bits(n);
    law_plain_store_keeps_sound(v, young, old, live, a, i, x);
    assert(b.sound()) by {
        reveal(tended);
        reveal(VmView::sound);
    }
    law_store_keeps_heap_sound(b, a, i, x);
    let h = v.heap.set_slot(a, i, x);
    assert forall|o: int, j: int|
        present(young, old, o) && !v.heap.hdr(o).byte_format() && 0 <= j < v.heap.nslots(o) && (o
            != a || j != i) implies #[trigger] h.slot(o, j) == v.heap.slot(o, j) by {
        assert(b.lists(o));
    }
}

/// Two objects that a process is made of.
pub open spec fn parts(
    v: VmView,
    young: Seq<usize>,
    old: Seq<usize>,
    live: Set<int>,
    p: int,
    s: int,
) -> bool {
    let b = v.objects(young, old, live);
    &&& tended(v, young, old, live)
    &&& b.has(p) && b.has(s)
    &&& p != s && p != v.active.addr() && s != v.active.addr()
    &&& v.heap.nslots(p) == PROCESS_NUM_VM_SLOTS
    &&& v.heap.nslots(s) == INITIAL_STACK_SLOTS
    &&& !v.heap.hdr(p).byte_format() && !v.heap.hdr(s).byte_format()
}

proof fn lemma_parts_on(
    v: VmView,
    w: VmView,
    young: Seq<usize>,
    old: Seq<usize>,
    live: Set<int>,
    p: int,
    s: int,
    a: int,
    i: int,
    x: Value,
)
    requires
        parts(v, young, old, live, p, s),
        one_slot(v, w, young, old, live, a, i, x),
    ensures
        parts(w, young, old, live, p, s),
        a != p || i != PROCESS_STACK ==> w.heap.slot(p, PROCESS_STACK as int) == v.heap.slot(
            p,
            PROCESS_STACK as int,
        ),
{
    assert(present(young, old, p) && present(young, old, s));
}

/// Arguments stored in the first frame.
#[verifier::rlimit(60)]
proof fn lemma_args_pushed(
    v: VmView,
    young: Seq<usize>,
    old: Seq<usize>,
    live: Set<int>,
    p: int,
    s: int,
    at: int,
    args: Seq<Value>,
    i: int,
)
    requires
        parts(v, young, old, live, p, s),
        0 <= i,
        0 <= at,
        at + args.len() <= INITIAL_STACK_SLOTS,
        forall|k: int|
            0 <= k < args.len() ==> v.objects(young, old, live).known(#[trigger] args[k]),
    ensures
        parts(v.on_heap(v.heap.push_args(s, at, args, i)), young, old, live, p, s),
        steady(v, v.on_heap(v.heap.push_args(s, at, args, i)), young, old),
        v.heap.push_args(s, at, args, i).slot(p, PROCESS_STACK as int) == v.heap.slot(
            p,
            PROCESS_STACK as int,
        ),
    decreases args.len() - i,
{
    if i < args.len() {
        let b = v.objects(young, old, live);
        assert(b.lists(s));
        lemma_slot_stored(v, young, old, live, s, at + i, args[i]);
        let w = v.on_heap(v.heap.store(s, at + i, args[i]));
        lemma_parts_on(v, w, young, old, live, p, s, s, at + i, args[i]);
        assert forall|k: int| 0 <= k < args.len() implies w.objects(young, old, live).known(
            #[trigger] args[k],
        ) by {
            lemma_still_known(v, w, young, old, live, args[k]);
        }
        lemma_args_pushed(w, young, old, live, p, s, at, args, i + 1);
        let r = w.on_heap(w.heap.push_args(s, at, args, i + 1));
        lemma_steady_on(v, w, r, young, old);
        assert(r == v.on_heap(v.heap.push_args(s, at, args, i)));
    } else {
        assert(v.on_heap(v.heap) == v);
    }
}

/// A new process and its stack poised to run.
#[verifier::rlimit(60)]
#[verifier::spinoff_prover]
proof fn lemma_poised(
    v: VmView,
    young: Seq<usize>,
    old: Seq<usize>,
    live: Set<int>,
    process: Value,
    stack: Value,
    method: Value,
    receiver: Value,
    args: Seq<Value>,
)
    requires
        parts(v, young, old, live, process.addr(), stack.addr()),
        v.objects(young, old, live).known(method),
        v.objects(young, old, live).known(receiver),
        forall|k: int|
            0 <= k < args.len() ==> v.objects(young, old, live).known(#[trigger] args[k]),
        args.len() <= 255,
    ensures
        ({
            let w = v.on_heap(v.heap.poised(process, stack, method, receiver, args));
            &&& parts(w, young, old, live, process.addr(), stack.addr())
            &&& steady(v, w, young, old)
            &&& w.heap.slot(process.addr(), PROCESS_STACK as int) == stack
        }),
{
    reveal(HeapView::poised);
    let p = process.addr();
    let s = stack.addr();
    let f = STACK_FRAMES_BASE as int;
    assert(v.objects(young, old, live).lists(p) && v.objects(young, old, live).lists(s));
    lemma_slot_stored(v, young, old, live, s, STACK_OWNER as int, process);
    let v1 = v.on_heap(v.heap.store(s, STACK_OWNER as int, process));
    lemma_parts_on(v, v1, young, old, live, p, s, s, STACK_OWNER as int, process);
    lemma_still_known(v, v1, young, old, live, stack);
    lemma_slot_stored(v1, young, old, live, p, PROCESS_STACK as int, stack);
    let v2 = v1.on_heap(v1.heap.store(p, PROCESS_STACK as int, stack));
    lemma_parts_on(v1, v2, young, old, live, p, s, p, PROCESS_STACK as int, stack);
    lemma_steady_on(v, v1, v2, young, old);
    let n3 = STACK_FRAMES_BASE as i64;
    lemma_slot_set(v2, young, old, live, p, PROCESS_FRAME_OFFSET as int, n3);
    let v3 = v2.on_heap(
        v2.heap.set_slot(p, PROCESS_FRAME_OFFSET as int, crate::value::tag(n3)),
    );
    lemma_parts_on(
        v2,
        v3,
        young,
        old,
        live,
        p,
        s,
        p,
        PROCESS_FRAME_OFFSET as int,
        crate::value::tag(n3),
    );
    lemma_steady_on(v, v2, v3, young, old);
    lemma_slot_set(v3, young, old, live, p, PROCESS_PC as int, 0);
    let v4 = v3.on_heap(v3.heap.set_slot(p, PROCESS_PC as int, crate::value::tag(0)));
    lemma_parts_on(v3, v4, young, old, live, p, s, p, PROCESS_PC as int, crate::value::tag(0));
    lemma_steady_on(v, v3, v4, young, old);
    lemma_slot_set(v4, young, old, live, p, PROCESS_PRIORITY as int, 4);
    let v5 = v4.on_heap(v4.heap.set_slot(p, PROCESS_PRIORITY as int, crate::value::tag(4)));
    lemma_parts_on(
        v4,
        v5,
        young,
        old,
        live,
        p,
        s,
        p,
        PROCESS_PRIORITY as int,
        crate::value::tag(4),
    );
    lemma_steady_on(v, v4, v5, young, old);
    lemma_slot_set(v5, young, old, live, p, PROCESS_SERIAL_COUNTER as int, 1);
    let v6 = v5.on_heap(
        v5.heap.set_slot(p, PROCESS_SERIAL_COUNTER as int, crate::value::tag(1)),
    );
    lemma_parts_on(
        v5,
        v6,
        young,
        old,
        live,
        p,
        s,
        p,
        PROCESS_SERIAL_COUNTER as int,
        crate::value::tag(1),
    );
    lemma_steady_on(v, v5, v6, young, old);
    lemma_first_frame(v, v6, young, old, live, process, stack, method, receiver, args);
    assert(v6.heap.set_slot(s, f + FRAME_CALLER, crate::value::tag(0)).set_slot(
        s,
        f + FRAME_RETINFO,
        crate::value::tag(0),
    ).store(s, f + FRAME_METHOD, method).set_slot(
        s,
        f + FRAME_FLAGS,
        crate::value::tag(FIRST_SERIAL),
    ).store(s, f + FRAME_RECEIVER, receiver).push_args(s, f + FRAME_RECEIVER + 1, args, 0)
        == v.heap.poised(process, stack, method, receiver, args));
}

/// The words of the first frame.
#[verifier::rlimit(60)]
#[verifier::spinoff_prover]
proof fn lemma_first_frame(
    u: VmView,
    v: VmView,
    young: Seq<usize>,
    old: Seq<usize>,
    live: Set<int>,
    process: Value,
    stack: Value,
    method: Value,
    receiver: Value,
    args: Seq<Value>,
)
    requires
        parts(v, young, old, live, process.addr(), stack.addr()),
        steady(u, v, young, old),
        v == u.on_heap(v.heap),
        u.objects(young, old, live).known(method),
        u.objects(young, old, live).known(receiver),
        forall|k: int|
            0 <= k < args.len() ==> u.objects(young, old, live).known(#[trigger] args[k]),
        args.len() <= 255,
        v.heap.slot(process.addr(), PROCESS_STACK as int) == stack,
    ensures
        ({
            let s = stack.addr();
            let f = STACK_FRAMES_BASE as int;
            let w = u.on_heap(
                v.heap.set_slot(s, f + FRAME_CALLER, crate::value::tag(0)).set_slot(
                    s,
                    f + FRAME_RETINFO,
                    crate::value::tag(0),
                ).store(s, f + FRAME_METHOD, method).set_slot(
                    s,
                    f + FRAME_FLAGS,
                    crate::value::tag(FIRST_SERIAL),
                ).store(s, f + FRAME_RECEIVER, receiver).push_args(
                    s,
                    f + FRAME_RECEIVER + 1,
                    args,
                    0,
                ),
            );
            &&& parts(w, young, old, live, process.addr(), stack.addr())
            &&& steady(u, w, young, old)
            &&& w.heap.slot(process.addr(), PROCESS_STACK as int) == stack
        }),
{
    let p = process.addr();
    let s = stack.addr();
    let f = STACK_FRAMES_BASE as int;
    assert(v.objects(young, old, live).lists(p) && v.objects(young, old, live).lists(s));
    let zero = crate::value::tag(0);
    lemma_slot_set(v, young, old, live, s, f + FRAME_CALLER, 0);
    let v1 = v.on_heap(v.heap.set_slot(s, f + FRAME_CALLER, zero));
    lemma_parts_on(v, v1, young, old, live, p, s, s, f + FRAME_CALLER, zero);
    lemma_steady_on(u, v, v1, young, old);
    lemma_slot_set(v1, young, old, live, s, f + FRAME_RETINFO, 0);
    let v2 = v1.on_heap(v1.heap.set_slot(s, f + FRAME_RETINFO, zero));
    lemma_parts_on(v1, v2, young, old, live, p, s, s, f + FRAME_RETINFO, zero);
    lemma_steady_on(u, v1, v2, young, old);
    lemma_still_known(u, v2, young, old, live, method);
    lemma_slot_stored(v2, young, old, live, s, f + FRAME_METHOD, method);
    let v3 = v2.on_heap(v2.heap.store(s, f + FRAME_METHOD, method));
    lemma_parts_on(v2, v3, young, old, live, p, s, s, f + FRAME_METHOD, method);
    lemma_steady_on(u, v2, v3, young, old);
    lemma_slot_set(v3, young, old, live, s, f + FRAME_FLAGS, FIRST_SERIAL);
    let v4 = v3.on_heap(
        v3.heap.set_slot(s, f + FRAME_FLAGS, crate::value::tag(FIRST_SERIAL)),
    );
    lemma_parts_on(
        v3,
        v4,
        young,
        old,
        live,
        p,
        s,
        s,
        f + FRAME_FLAGS,
        crate::value::tag(FIRST_SERIAL),
    );
    lemma_steady_on(u, v3, v4, young, old);
    lemma_still_known(u, v4, young, old, live, receiver);
    lemma_slot_stored(v4, young, old, live, s, f + FRAME_RECEIVER, receiver);
    let v5 = v4.on_heap(v4.heap.store(s, f + FRAME_RECEIVER, receiver));
    lemma_parts_on(v4, v5, young, old, live, p, s, s, f + FRAME_RECEIVER, receiver);
    lemma_steady_on(u, v4, v5, young, old);
    assert forall|k: int| 0 <= k < args.len() implies v5.objects(young, old, live).known(
        #[trigger] args[k],
    ) by {
        lemma_still_known(u, v5, young, old, live, args[k]);
    }
    lemma_args_pushed(v5, young, old, live, p, s, f + FRAME_RECEIVER + 1, args, 0);
    let v6 = v5.on_heap(v5.heap.push_args(s, f + FRAME_RECEIVER + 1, args, 0));
    lemma_steady_on(u, v5, v6, young, old);
    assert(v6 == u.on_heap(v6.heap));
}

/// A new process for a known method, receiver and arguments leaves the
/// machine sound, and can be made the active one.
#[verifier::rlimit(60)]
#[verifier::spinoff_prover]
pub proof fn law_spawn_keeps_sound(
    v: VmView,
    young: Seq<usize>,
    old: Seq<usize>,
    live: Set<int>,
    method: Value,
    receiver: Value,
    args: Seq<Value>,
) -> (l: Lists)
    requires
        tended(v, young, old, live),
        nil_first(v, old),
        v.objects(young, old, live).known(method),
        v.objects(young, old, live).known(receiver),
        forall|k: int|
            0 <= k < args.len() ==> v.objects(young, old, live).known(#[trigger] args[k]),
        args.len() <= 255,
    ensures
        v.spawned(method, receiver, args) matches Ok((w, p)) ==> {
            &&& tended(w, l.young, l.old, l.live)
            &&& nil_first(w, l.old)
            &&& runnable(w, l.young, l.old, l.live, p)
        },
{
    let base = v.temp_roots.len() as int;
    let t = v.temp_roots.push(method).push(receiver) + args;
    assert forall|i: int| 0 <= i < t.len() implies v.objects(young, old, live).known(
        #[trigger] t[i],
    ) by {
        if i < base {
            lemma_temp_known(v, young, old, live, i);
        } else if i >= base + 2 {
            assert(t[i] == args[i - base - 2]);
        }
    }
    lemma_temp_roots(v, young, old, live, t);
    let v0 = VmView { temp_roots: t, ..v };
    let n1 = PROCESS_NUM_VM_SLOTS as int;
    let l1 = lemma_allocated(v0, young, old, live, CLASS_PROCESS, FMT_FIXED, n1);
    match v0.allocated(CLASS_PROCESS, FMT_FIXED, n1) {
        Err(_) => l1,
        Ok((v1, p)) => {
            let t1 = v1.temp_roots.push(p);
            assert forall|i: int| 0 <= i < t1.len() implies l1.of(v1).known(#[trigger] t1[i]) by {
                if i < v1.temp_roots.len() {
                    lemma_temp_known(v1, l1.young, l1.old, l1.live, i);
                }
            }
            lemma_temp_roots(v1, l1.young, l1.old, l1.live, t1);
            let v2 = VmView { temp_roots: t1, ..v1 };
            let n2 = INITIAL_STACK_SLOTS as int;
            let l = lemma_allocated(
                v2,
                l1.young,
                l1.old,
                l1.live,
                CLASS_STACK,
                FMT_PTRS,
                n2,
            );
            if let Ok((v3, stack)) = v2.allocated(CLASS_STACK, FMT_PTRS, n2) {
                let k = v3.temp_roots.len() - 1;
                let process = v3.temp_roots.last();
                lemma_temp_known(v2, l1.young, l1.old, l1.live, k);
                lemma_temp_known(v3, l.young, l.old, l.live, k);
                let at = v2.specials.len() + v2.class_table.len() + k;
                let last = v2.roots().len() - 1;
                assert(l1.of(v1).sound()) by {
                    reveal(tended);
                    reveal(VmView::sound);
                }
                assert(l1.of(v1).lists(p.addr()));
                crate::soundness::lemma_lies(l1.of(v1), p.addr());
                assert(v2.roots()[at] == p && v2.roots()[last] == v2.active);
                assert(v1.roots()[v1.roots().len() - 1] == v1.active);
                let z = SPECIAL_NIL as int;
                assert(v1.roots()[z] == v1.nil() && v2.roots()[z] == v2.nil() && v3.roots()[z]
                    == v3.nil());
                assert(v2.roots()[at] != v2.roots()[z]);
                assert(v3.roots()[at] != v3.roots()[z]);
                assert(v3.roots()[z] != stack);
                assert(v2.roots()[at] != v2.roots()[last]);
                assert(v3.roots()[at] != v3.roots()[last]);
                assert(root_kept(v2, v2.roots()[at], v3, v3.roots()[at]));
                assert(v3.roots()[at] == process && v3.roots()[last] == v3.active);
                assert(v3.roots()[at] != stack && v3.roots()[last] != stack);
                assert(parts(
                    v3,
                    l.young,
                    l.old,
                    l.live,
                    process.addr(),
                    stack.addr(),
                ));
                let rooted = v3.temp_roots.subrange(base, k);
                assert(rooted.len() == 2 + args.len());
                assert forall|i: int| 0 <= i < rooted.len() implies l.of(v3).known(
                    #[trigger] rooted[i],
                ) by {
                    lemma_temp_known(v3, l.young, l.old, l.live, base + i);
                }
                let more = rooted.subrange(2, rooted.len() as int);
                assert forall|i: int| 0 <= i < more.len() implies l.of(v3).known(
                    #[trigger] more[i],
                ) by {
                    assert(more[i] == rooted[i + 2]);
                }
                lemma_poised(
                    v3,
                    l.young,
                    l.old,
                    l.live,
                    process,
                    stack,
                    rooted[0],
                    rooted[1],
                    more,
                );
                let v4 = v3.on_heap(
                    v3.heap.poised(process, stack, rooted[0], rooted[1], more),
                );
                let t4 = v4.temp_roots.subrange(0, base);
                assert forall|i: int| 0 <= i < t4.len() implies l.of(v4).known(
                    #[trigger] t4[i],
                ) by {
                    lemma_temp_known(v4, l.young, l.old, l.live, i);
                }
                lemma_temp_roots(v4, l.young, l.old, l.live, t4);
                let w = VmView { temp_roots: t4, ..v4 };
                lemma_runnable_after(v4, w, l, process, stack);
            }
            l
        },
    }
}

proof fn lemma_runnable_after(v: VmView, w: VmView, l: Lists, p: Value, s: Value)
    requires
        parts(v, l.young, l.old, l.live, p.addr(), s.addr()),
        v.heap.slot(p.addr(), PROCESS_STACK as int) == s,
        w.heap == v.heap,
        w.nil() == v.nil(),
        nil_first(w, l.old),
        p.tagged_ptr(),
        s.tagged_ptr(),
        p != w.nil(),
        s != w.nil(),
    ensures
        runnable(w, l.young, l.old, l.live, p),
{
    let b = v.objects(l.young, l.old, l.live);
    assert(b.sound()) by {
        reveal(tended);
        reveal(VmView::sound);
    }
    assert(b.lists(p.addr()) && b.lists(s.addr()));
    crate::soundness::lemma_lies(b, p.addr());
    crate::soundness::lemma_lies(b, s.addr());
}

} // verus!
