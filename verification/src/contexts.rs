//! What the frames of a stack tell about themselves.

use crate::calls::slots_of;
use crate::fields::{
    lemma_field_set, lemma_same_but_more, lemma_same_but_on, lemma_same_but_self, same_but,
};
use crate::handlers::handler_slot;
use crate::machine::{offset_of, Machine};
use crate::queues::{laid_out, roomy};
use crate::requests::Outcome;
use crate::treaty::{
    CLASS_ARRAY, CLASS_SEMAPHORE, FMT_PTRS, FRAME_CALLER, FRAME_FLAGS, FRAME_METHOD,
    FRAME_RECEIVER, FRAME_RETINFO, HANDLER_SLOT_BLOCK, HANDLER_SLOT_CLASS, HANDLER_SLOT_STATE,
    PRIM_FRAME_INFO, PRIM_HANDLER_INFO, PRIM_SET_HANDLER_STATE, PRIM_SIGNAL_AT_MS,
    PRIM_SIGNAL_CONTEXT, PROCESS_FRAME_OFFSET, PROCESS_PC, PROCESS_STACK,
};
use crate::value::Value;
use crate::vm::{Fault, VmView};
use vstd::prelude::*;

verus! {

// ---------------------------------------------------------------------------
// Where frames go on
// ---------------------------------------------------------------------------
/// Frame `k` of a stack was called by the next one, and says where that goes
/// on.
pub open spec fn calls_back(v: VmView, st: Value, offs: Seq<u64>, k: int) -> bool {
    let c = v.field(st, offs[k] + FRAME_CALLER);
    &&& c.tagged_int()
    &&& c.int_value() == offs[k + 1]
    &&& 0 < offs[k + 1] < offs[k]
    &&& v.field(st, offs[k] + FRAME_RETINFO).tagged_int()
}

/// A frame that has called another goes on where the frame that it called
/// returns to, however far below the top it lies.
pub proof fn law_frame_goes_on_after_its_call(
    m: Machine,
    st: Value,
    offs: Seq<u64>,
    i: int,
    k: int,
)
    requires
        0 <= i < k < offs.len(),
        forall|j: int| 0 <= j < offs.len() - 1 ==> #[trigger] calls_back(m.vm, st, offs, j),
    ensures
        m.resume_pc(st, offs[i], offs[k]) == crate::value::tag(
            (m.vm.field(st, offs[k - 1] + FRAME_RETINFO).int_value() >> 8u32) as i64,
        ),
    decreases k - i,
{
    assert(calls_back(m.vm, st, offs, i));
    lemma_descends(m.vm, st, offs, i, k);
    if i + 1 < k {
        lemma_descends(m.vm, st, offs, i + 1, k);
        law_frame_goes_on_after_its_call(m, st, offs, i + 1, k);
    }
}

proof fn lemma_descends(v: VmView, st: Value, offs: Seq<u64>, i: int, k: int)
    requires
        0 <= i < k < offs.len(),
        forall|j: int| 0 <= j < offs.len() - 1 ==> #[trigger] calls_back(v, st, offs, j),
    ensures
        offs[k] < offs[i],
    decreases k - i,
{
    assert(calls_back(v, st, offs, i));
    if i + 1 < k {
        lemma_descends(v, st, offs, i + 1, k);
    }
}

/// Slots of a frame copied to an array.
proof fn lemma_frame_copied(
    m: Machine,
    young: Seq<usize>,
    old: Seq<usize>,
    st: Value,
    o: u64,
    arr: Value,
    k: int,
    n: int,
)
    requires
        laid_out(m.vm.heap, young, old),
        st != arr,
        0 <= k <= n,
        k < n ==> roomy(m.vm.heap, young, old, arr.addr(), 1 + n) && roomy(
            m.vm.heap,
            young,
            old,
            st.addr(),
            o + FRAME_RECEIVER + n - 1,
        ),
    ensures
        m.frame_copied(st, o, arr, k, n).regs == m.regs,
        same_but(
            m.vm,
            m.frame_copied(st, o, arr, k, n).vm,
            young,
            old,
            slots_of(arr, 2 + k, 2 + n),
        ),
        forall|j: int|
            k <= j < n ==> #[trigger] m.frame_copied(st, o, arr, k, n).vm.field(arr, 2 + j)
                == m.vm.field(st, o + FRAME_RECEIVER + j),
    decreases n - k,
{
    let v = m.vm;
    lemma_same_but_self(v, v, young, old);
    let base = o + FRAME_RECEIVER;
    if k < n {
        let x = v.field(st, base + k);
        let w = m.on(v.with_field(arr, 2 + k, x));
        assert(roomy(v.heap, young, old, arr.addr(), 2 + k));
        lemma_field_set(v, young, old, arr, 2 + k, x);
        assert(roomy(w.vm.heap, young, old, arr.addr(), 1 + n));
        assert(roomy(w.vm.heap, young, old, st.addr(), base + n - 1));
        lemma_frame_copied(w, young, old, st, o, arr, k + 1, n);
        let z = m.frame_copied(st, o, arr, k, n);
        let s = slots_of(arr, 2 + k + 1, 2 + n);
        assert(slots_of(arr, 2 + (k + 1), 2 + n) =~= s);
        lemma_same_but_on(v, w.vm, z.vm, young, old, set![(arr, 2 + k)], s);
        lemma_same_but_more(
            v,
            z.vm,
            young,
            old,
            set![(arr, 2 + k)].union(s),
            slots_of(arr, 2 + k, 2 + n),
        );
        assert forall|j: int| k <= j < n implies #[trigger] z.vm.field(arr, 2 + j) == v.field(
            st,
            base + j,
        ) by {
            if j == k {
                assert(roomy(w.vm.heap, young, old, arr.addr(), 2 + k));
                assert(!s.contains((arr, 2 + k)));
                assert(z.vm.field(arr, 2 + k) == w.vm.field(arr, 2 + k));
            } else {
                assert(w.frame_copied(st, o, arr, k + 1, n).vm.field(arr, 2 + j) == w.vm.field(
                    st,
                    base + j,
                ));
                assert(roomy(v.heap, young, old, st.addr(), base + j));
                assert(w.vm.field(st, base + j) == v.field(st, base + j));
            }
        }
    } else {
        lemma_same_but_more(v, v, young, old, Set::empty(), slots_of(arr, 2 + k, 2 + n));
    }
}

/// A frame of a process that does not run is told as an array: its method,
/// where it goes on, and its slots from the receiver on.
#[verifier::rlimit(60)]
#[verifier::spinoff_prover]
pub proof fn law_frame_is_told(
    m: Machine,
    r: u8,
    argc: int,
    dest: u8,
    m1: Machine,
    arr: Value,
    young: Seq<usize>,
    old: Seq<usize>,
    offs: Seq<u64>,
    k: int,
)
    requires
        ({
            let p = m.get(r + 1);
            let st = m.vm.field(p, PROCESS_STACK as int);
            let method = m.vm.field(st, offs[k] + FRAME_METHOD);
            let n = crate::vm::mh_frame_slots(m.vm.method_bits(method));
            &&& 0 <= k < offs.len()
            &&& m.get(r + 2).tagged_int()
            &&& m.get(r + 2).int_value() == offs[k]
            &&& p.tagged_ptr()
            &&& st != m.vm.nil()
            &&& method.tagged_ptr() && method != m.vm.nil()
            &&& m.allocated(CLASS_ARRAY, FMT_PTRS, 2 + n) == Ok::<(Machine, Value), Fault>(
                (m1, arr),
            )
            &&& laid_out(m1.vm.heap, young, old)
            &&& roomy(m1.vm.heap, young, old, arr.addr(), 1 + n)
            &&& roomy(
                m1.vm.heap,
                young,
                old,
                m1.vm.field(p, PROCESS_STACK as int).addr(),
                offs[k] + FRAME_RECEIVER + n,
            )
            &&& m1.vm.field(p, PROCESS_STACK as int) != arr
        }),
        ({
            let p = m.get(r + 1);
            let st = m1.vm.field(p, PROCESS_STACK as int);
            let top = m1.vm.field(p, PROCESS_FRAME_OFFSET as int);
            &&& top.tagged_int()
            &&& top.int_value() == offs[0]
            &&& forall|j: int| 0 <= j < offs.len() - 1 ==> #[trigger] calls_back(m1.vm, st, offs, j)
        }),
    ensures
        m.dispatched_primitive(PRIM_FRAME_INFO, r, argc, dest) matches Ok((w, o)) && {
            let p = m.get(r + 1);
            let st = m1.vm.field(p, PROCESS_STACK as int);
            let n = crate::vm::mh_frame_slots(
                m.vm.method_bits(
                    m.vm.field(m.vm.field(p, PROCESS_STACK as int), offs[k] + FRAME_METHOD),
                ),
            );
            &&& o == Outcome::Value(arr)
            &&& w.regs == m1.regs
            &&& w.vm.field(arr, 0) == m1.vm.field(st, offs[k] + FRAME_METHOD)
            &&& w.vm.field(arr, 1) == if k == 0 {
                m1.vm.field(p, PROCESS_PC as int)
            } else {
                crate::value::tag(
                    (m1.vm.field(st, offs[k - 1] + FRAME_RETINFO).int_value() >> 8u32) as i64,
                )
            }
            &&& forall|j: int|
                0 <= j < n ==> #[trigger] w.vm.field(arr, 2 + j) == m1.vm.field(
                    st,
                    offs[k] + FRAME_RECEIVER + j,
                )
            &&& same_but(m1.vm, w.vm, young, old, slots_of(arr, 0, 2 + n))
        },
{
    reveal(Machine::dispatched_primitive);
    reveal(Machine::object_primitive);
    reveal(Machine::control_primitive);
    reveal(Machine::prim_frame_info);
    let p = m.get(r + 1);
    let o = offs[k];
    let n = crate::vm::mh_frame_slots(
        m.vm.method_bits(m.vm.field(m.vm.field(p, PROCESS_STACK as int), o + FRAME_METHOD)),
    );
    crate::vm::lemma_mh_ranges(
        m.vm.method_bits(m.vm.field(m.vm.field(p, PROCESS_STACK as int), o + FRAME_METHOD)),
    );
    let st = m1.vm.field(p, PROCESS_STACK as int);
    let x0 = m1.vm.field(st, o + FRAME_METHOD);
    let x1 = if k == 0 {
        m1.vm.field(p, PROCESS_PC as int)
    } else {
        m1.resume_pc(st, offs[0], o)
    };
    if k > 0 {
        law_frame_goes_on_after_its_call(m1, st, offs, 0, k);
        lemma_descends(m1.vm, st, offs, 0, k);
    }
    let v = m1.vm;
    assert(roomy(v.heap, young, old, arr.addr(), 0) && roomy(v.heap, young, old, arr.addr(), 1));
    lemma_field_set(v, young, old, arr, 0, x0);
    let a = v.with_field(arr, 0, x0);
    assert(roomy(a.heap, young, old, arr.addr(), 0) && roomy(a.heap, young, old, arr.addr(), 1));
    lemma_field_set(a, young, old, arr, 1, x1);
    let b = a.with_field(arr, 1, x1);
    assert(roomy(a.heap, young, old, arr.addr(), 1 + n));
    assert(roomy(b.heap, young, old, arr.addr(), 1 + n));
    assert(roomy(b.heap, young, old, arr.addr(), 0) && roomy(b.heap, young, old, arr.addr(), 1));
    assert forall|j: int| 0 <= j <= n implies roomy(
        b.heap,
        young,
        old,
        st.addr(),
        #[trigger] (o + FRAME_RECEIVER + j),
    ) && b.field(st, o + FRAME_RECEIVER + j) == v.field(st, o + FRAME_RECEIVER + j) by {
        let i = o + FRAME_RECEIVER + j;
        assert(roomy(v.heap, young, old, st.addr(), i));
        assert(roomy(a.heap, young, old, st.addr(), i));
        assert(roomy(b.heap, young, old, st.addr(), i));
        assert(a.field(st, i) == v.field(st, i));
        assert(b.field(st, i) == a.field(st, i));
    }
    if 0 < n {
        let i = o + FRAME_RECEIVER + (n - 1);
        assert(roomy(b.heap, young, old, st.addr(), i));
    }
    lemma_frame_copied(m1.on(b), young, old, st, o, arr, 0, n);
    let w = m1.on(b).frame_copied(st, o, arr, 0, n);
    let t = slots_of(arr, 2, 2 + n);
    assert(slots_of(arr, 2 + 0int, 2 + n) =~= t);
    assert(b.field(arr, 0) == a.field(arr, 0));
    assert(!t.contains((arr, 0int)) && !t.contains((arr, 1int)));
    assert(w.vm.field(arr, 0) == b.field(arr, 0));
    assert(w.vm.field(arr, 1) == b.field(arr, 1));
    let s0 = set![(arr, 0int)];
    let s1 = set![(arr, 1int)];
    lemma_same_but_on(v, a, b, young, old, s0, s1);
    lemma_same_but_on(v, b, w.vm, young, old, s0.union(s1), t);
    lemma_same_but_more(v, w.vm, young, old, s0.union(s1).union(t), slots_of(arr, 0, 2 + n));
    assert forall|j: int| 0 <= j < n implies #[trigger] w.vm.field(arr, 2 + j) == v.field(
        st,
        o + FRAME_RECEIVER + j,
    ) by {
        assert(w.vm.field(arr, 2 + j) == b.field(st, o + FRAME_RECEIVER + j));
    }
    assert(offset_of(m.get(r + 2).int_value()) == o);
}

// ---------------------------------------------------------------------------
// Handlers
// ---------------------------------------------------------------------------
/// The frame at an offset is a handler's.
pub open spec fn handles_here(m: Machine, off: u64) -> bool {
    let f = m.vm.field(m.regs.stack, off + FRAME_FLAGS);
    f.tagged_int() && f.int_value() & 1 != 0
}

/// The state of a handler is set in its frame, and nothing else changes.
pub proof fn law_handler_state_is_set(
    m: Machine,
    young: Seq<usize>,
    old: Seq<usize>,
    r: u8,
    argc: int,
    dest: u8,
    off: u64,
)
    requires
        m.get(r + 1).tagged_int(),
        m.get(r + 1).int_value() == off,
        m.get(r + 2).tagged_int(),
        handles_here(m, off),
        laid_out(m.vm.heap, young, old),
        roomy(
            m.vm.heap,
            young,
            old,
            m.regs.stack.addr(),
            handler_slot(m, off) + HANDLER_SLOT_STATE,
        ),
    ensures
        m.dispatched_primitive(PRIM_SET_HANDLER_STATE, r, argc, dest) matches Ok((w, o)) && {
            &&& o is Value
            &&& w.regs == m.regs
            &&& w.vm.field(m.regs.stack, handler_slot(m, off) + HANDLER_SLOT_STATE) == m.get(r + 2)
            &&& same_but(
                m.vm,
                w.vm,
                young,
                old,
                set![(m.regs.stack, handler_slot(m, off) + HANDLER_SLOT_STATE)],
            )
        },
{
    reveal(Machine::dispatched_primitive);
    reveal(Machine::object_primitive);
    reveal(Machine::control_primitive);
    reveal(Machine::prim_set_handler_state);
    lemma_field_set(
        m.vm,
        young,
        old,
        m.regs.stack,
        handler_slot(m, off) + HANDLER_SLOT_STATE,
        m.get(r + 2),
    );
}

/// What is no handler frame is not found.
pub proof fn law_other_frames_have_no_handler(
    m: Machine,
    r: u8,
    argc: int,
    dest: u8,
    off: u64,
)
    requires
        m.get(r + 1).tagged_int(),
        m.get(r + 1).int_value() == off,
        m.get(r + 2).tagged_int(),
        !handles_here(m, off),
    ensures
        m.dispatched_primitive(PRIM_SET_HANDLER_STATE, r, argc, dest) == Ok::<
            (Machine, Outcome),
            Fault,
        >((m, Outcome::Fail(crate::prims::FAIL_NOT_FOUND))),
        m.dispatched_primitive(PRIM_HANDLER_INFO, r, argc, dest) == Ok::<
            (Machine, Outcome),
            Fault,
        >((m, Outcome::Fail(crate::prims::FAIL_NOT_FOUND))),
{
    reveal(Machine::dispatched_primitive);
    reveal(Machine::object_primitive);
    reveal(Machine::control_primitive);
    reveal(Machine::prim_set_handler_state);
    reveal(Machine::prim_handler_info);
}

/// A handler is told as an array: its class, its block and the number of its
/// frame.
#[verifier::rlimit(40)]
pub proof fn law_handler_is_told(
    m: Machine,
    r: u8,
    argc: int,
    dest: u8,
    off: u64,
    m1: Machine,
    arr: Value,
    young: Seq<usize>,
    old: Seq<usize>,
)
    requires
        m.get(r + 1).tagged_int(),
        m.get(r + 1).int_value() == off,
        handles_here(m, off),
        m.allocated(CLASS_ARRAY, FMT_PTRS, 3) == Ok::<(Machine, Value), Fault>((m1, arr)),
        laid_out(m1.vm.heap, young, old),
        roomy(m1.vm.heap, young, old, arr.addr(), 2),
    ensures
        m.dispatched_primitive(PRIM_HANDLER_INFO, r, argc, dest) matches Ok((w, o)) && {
            let at = handler_slot(m1, off);
            let st = m1.regs.stack;
            &&& o == Outcome::Value(arr)
            &&& w.regs == m1.regs
            &&& w.vm.field(arr, 0) == m1.vm.field(st, at + HANDLER_SLOT_CLASS)
            &&& w.vm.field(arr, 1) == m1.vm.field(st, at + HANDLER_SLOT_BLOCK)
            &&& w.vm.field(arr, 2).tagged_int()
            &&& w.vm.field(arr, 2).int_value() == m1.vm.field(
                st,
                off + FRAME_FLAGS,
            ).int_value() >> 32u32
            &&& same_but(m1.vm, w.vm, young, old, slots_of(arr, 0, 3))
        },
{
    reveal(Machine::dispatched_primitive);
    reveal(Machine::object_primitive);
    reveal(Machine::control_primitive);
    reveal(Machine::prim_handler_info);
    let at = handler_slot(m1, off);
    let st = m1.regs.stack;
    let v = m1.vm;
    let flags = v.field(st, off + FRAME_FLAGS).int_value();
    crate::frames::lemma_retinfo(flags);
    crate::value::lemma_tag_bits((flags >> 32u32) as i64);
    lemma_three(
        v,
        young,
        old,
        arr,
        v.field(st, at + HANDLER_SLOT_CLASS),
        v.field(st, at + HANDLER_SLOT_BLOCK),
        crate::value::tag((flags >> 32u32) as i64),
    );
}

proof fn lemma_three(
    v: VmView,
    young: Seq<usize>,
    old: Seq<usize>,
    arr: Value,
    x: Value,
    y: Value,
    z: Value,
)
    requires
        laid_out(v.heap, young, old),
        roomy(v.heap, young, old, arr.addr(), 2),
    ensures
        ({
            let w = v.with_field(arr, 0, x).with_field(arr, 1, y).with_field(arr, 2, z);
            &&& w.field(arr, 0) == x
            &&& w.field(arr, 1) == y
            &&& w.field(arr, 2) == z
            &&& same_but(v, w, young, old, slots_of(arr, 0, 3))
        }),
{
    assert(roomy(v.heap, young, old, arr.addr(), 0) && roomy(v.heap, young, old, arr.addr(), 1));
    lemma_field_set(v, young, old, arr, 0, x);
    let a = v.with_field(arr, 0, x);
    assert(roomy(a.heap, young, old, arr.addr(), 0) && roomy(a.heap, young, old, arr.addr(), 1)
        && roomy(a.heap, young, old, arr.addr(), 2));
    lemma_field_set(a, young, old, arr, 1, y);
    let b = a.with_field(arr, 1, y);
    assert(roomy(b.heap, young, old, arr.addr(), 0) && roomy(b.heap, young, old, arr.addr(), 1)
        && roomy(b.heap, young, old, arr.addr(), 2));
    lemma_field_set(b, young, old, arr, 2, z);
    let w = b.with_field(arr, 2, z);
    assert(b.field(arr, 0) == a.field(arr, 0));
    assert(w.field(arr, 0) == b.field(arr, 0) && w.field(arr, 1) == b.field(arr, 1));
    let s0 = set![(arr, 0int)];
    let s1 = set![(arr, 1int)];
    let s2 = set![(arr, 2int)];
    lemma_same_but_on(v, a, b, young, old, s0, s1);
    lemma_same_but_on(v, b, w, young, old, s0.union(s1), s2);
    lemma_same_but_more(v, w, young, old, s0.union(s1).union(s2), slots_of(arr, 0, 3));
}

/// The running frame is told as an array: its offset and its number.
#[verifier::rlimit(40)]
pub proof fn law_running_frame_is_told(
    m: Machine,
    r: u8,
    argc: int,
    dest: u8,
    m1: Machine,
    arr: Value,
    young: Seq<usize>,
    old: Seq<usize>,
)
    requires
        m.allocated(CLASS_ARRAY, FMT_PTRS, 2) == Ok::<(Machine, Value), Fault>((m1, arr)),
        laid_out(m1.vm.heap, young, old),
        roomy(m1.vm.heap, young, old, arr.addr(), 1),
        m1.regs.frame <= crate::value::SMALLINT_MAX,
    ensures
        m.dispatched_primitive(PRIM_SIGNAL_CONTEXT, r, argc, dest) matches Ok((w, o)) && {
            &&& o == Outcome::Value(arr)
            &&& w.regs == m1.regs
            &&& w.vm.field(arr, 0).tagged_int()
            &&& w.vm.field(arr, 0).int_value() == m1.regs.frame
            &&& w.vm.field(arr, 1).tagged_int()
            &&& w.vm.field(arr, 1).int_value() == m1.vm.field(
                m1.regs.stack,
                m1.regs.frame + FRAME_FLAGS,
            ).int_value() >> 32u32
            &&& same_but(m1.vm, w.vm, young, old, slots_of(arr, 0, 2))
        },
{
    reveal(Machine::dispatched_primitive);
    reveal(Machine::object_primitive);
    reveal(Machine::control_primitive);
    reveal(Machine::prim_signal_context);
    let v = m1.vm;
    let flags = v.field(m1.regs.stack, m1.regs.frame + FRAME_FLAGS).int_value();
    crate::frames::lemma_retinfo(flags);
    let x = crate::value::tag(m1.regs.frame as i64);
    let y = crate::value::tag((flags >> 32u32) as i64);
    crate::value::lemma_tag_bits((flags >> 32u32) as i64);
    crate::value::lemma_tag_bits(m1.regs.frame as i64);
    assert(roomy(v.heap, young, old, arr.addr(), 0));
    lemma_field_set(v, young, old, arr, 0, x);
    let a = v.with_field(arr, 0, x);
    assert(roomy(a.heap, young, old, arr.addr(), 0) && roomy(a.heap, young, old, arr.addr(), 1));
    lemma_field_set(a, young, old, arr, 1, y);
    let b = a.with_field(arr, 1, y);
    assert(b.field(arr, 0) == a.field(arr, 0));
    let s0 = set![(arr, 0int)];
    let s1 = set![(arr, 1int)];
    lemma_same_but_on(v, a, b, young, old, s0, s1);
    lemma_same_but_more(v, b, young, old, s0.union(s1), slots_of(arr, 0, 2));
}

// ---------------------------------------------------------------------------
// Timers
// ---------------------------------------------------------------------------
/// A signal asked for at a time joins the requests, after those that are
/// there, and the machine looks at its timers from then on.
pub proof fn law_timer_is_asked_for(m: Machine, r: u8, argc: int, dest: u8)
    requires
        m.vm.is_a(m.get(r + 1), CLASS_SEMAPHORE),
        m.get(r + 2).tagged_int(),
        m.vm.timer_times.len() == m.vm.timer_sems.len(),
    ensures
        m.dispatched_primitive(PRIM_SIGNAL_AT_MS, r, argc, dest) matches Ok((w, o)) && {
            let n = m.vm.timer_times.len();
            &&& o == Outcome::Value(m.get(r as int))
            &&& w.regs == m.regs
            &&& w.vm.heap == m.vm.heap
            &&& w.vm.safepoint.armed
            &&& w.vm.timer_times.len() == n + 1
            &&& w.vm.timer_sems.len() == n + 1
            &&& w.vm.timer_times[n as int] == m.get(r + 2).int_value()
            &&& w.vm.timer_sems[n as int] == m.get(r + 1)
            &&& forall|i: int|
                0 <= i < n ==> #[trigger] w.vm.timer_times[i] == m.vm.timer_times[i]
                    && w.vm.timer_sems[i] == m.vm.timer_sems[i]
        },
{
    reveal(Machine::dispatched_primitive);
    reveal(Machine::object_primitive);
    reveal(Machine::control_primitive);
    reveal(Machine::prim_signal_at);
    reveal(VmView::field);
}

} // verus!
