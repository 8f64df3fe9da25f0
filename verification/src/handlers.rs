//! Which handler an exception finds, and what an unwind does on its way.

use crate::calls::{
    lemma_nilled_fields, lemma_set_among, slots_of, stack_here,
};
use crate::fields::{lemma_same_but_more, lemma_same_but_on, lemma_same_but_self, same_but};
use crate::graph::listed;
use crate::inheritance::{law_handles_what_inherits, lineage};
use crate::machine::{offset_of, Machine};
use crate::queues::roomy;
use crate::requests::Outcome;
use crate::treaty::{
    CLASS_BLOCKCLOSURE, CLOSURE_COMPILED_BLOCK, ENSURE_SLOT_BLOCK, ENSURE_SLOT_PENDING_SERIAL,
    ENSURE_SLOT_PENDING_TARGET, ENSURE_SLOT_PENDING_VALUE, FLAG_BLOCKCTX, FLAG_UNWINDCONT,
    FRAME_CALLER, FRAME_FLAGS, FRAME_METHOD, FRAME_RECEIVER, FRAME_RETINFO, HANDLER_SLOT_CLASS,
    HANDLER_SLOT_STATE, HANDLER_STATE_ARMED, METHOD_HEADER, PRIM_FIND_HANDLER,
    PROCESS_SERIAL_COUNTER,
};
use crate::value::Value;
use crate::vm::{Fault, VmView};
use vstd::prelude::*;

verus! {

// ---------------------------------------------------------------------------
// Handlers
// ---------------------------------------------------------------------------
/// Frames of the running stack, each the caller of the one before it.
pub open spec fn call_chain(m: Machine, offs: Seq<u64>) -> bool {
    &&& offs.len() > 0
    &&& forall|k: int| 0 <= k < offs.len() - 1 ==> #[trigger] called_by(m, offs, k)
}

/// Frame `k` was called by the next one.
pub open spec fn called_by(m: Machine, offs: Seq<u64>, k: int) -> bool {
    let c = m.vm.field(m.regs.stack, offs[k] + FRAME_CALLER);
    &&& c.tagged_int()
    &&& c.int_value() == offs[k + 1]
    &&& 0 < offs[k + 1] < offs[k]
}

/// The frame at an offset was called by none.
pub open spec fn at_base(m: Machine, off: u64) -> bool {
    let c = m.vm.field(m.regs.stack, off + FRAME_CALLER);
    !c.tagged_int() || c.int_value() == 0
}

/// The slot of the running stack at which the frame at an offset keeps its
/// handler or its ensure block.
pub open spec fn handler_slot(m: Machine, off: u64) -> int {
    off + FRAME_RECEIVER + crate::vm::mh_handler_base(
        m.vm.field(
            m.vm.field(m.regs.stack, off + FRAME_METHOD),
            METHOD_HEADER as int,
        ).int_value(),
    )
}

/// The frame at an offset holds an armed handler for one of these classes.
pub open spec fn armed_handler(m: Machine, off: u64, classes: Seq<Value>) -> bool {
    let flags = m.vm.field(m.regs.stack, off + FRAME_FLAGS);
    let at = handler_slot(m, off);
    let state = m.vm.field(m.regs.stack, at + HANDLER_SLOT_STATE);
    &&& flags.tagged_int()
    &&& flags.int_value() & 1 != 0
    &&& state.tagged_int()
    &&& state.int_value() == HANDLER_STATE_ARMED
    &&& classes.contains(m.vm.field(m.regs.stack, at + HANDLER_SLOT_CLASS))
}

proof fn lemma_nearest(
    m: Machine,
    offs: Seq<u64>,
    k: int,
    exc: Value,
    chain: Seq<Value>,
)
    requires
        call_chain(m, offs),
        at_base(m, offs.last()),
        lineage(m.vm, exc, chain),
        0 <= k < offs.len(),
        forall|j: int| 0 <= j < k ==> !armed_handler(m, #[trigger] offs[j], chain),
    ensures
        ({
            let found = m.nearest_handler(offs[k], exc);
            ||| found == m.vm.nil() && forall|j: int|
                0 <= j < offs.len() ==> !armed_handler(m, #[trigger] offs[j], chain)
            ||| exists|j: int|
                0 <= j < offs.len() && found == crate::value::tag(offs[j] as i64)
                    && #[trigger] armed_handler(m, offs[j], chain) && forall|i: int|
                    0 <= i < j ==> !armed_handler(m, #[trigger] offs[i], chain)
        }),
    decreases offs.len() - k,
{
    let off = offs[k];
    let at = m.handler_at(off);
    let stored = m.vm.field(m.regs.stack, at + HANDLER_SLOT_CLASS);
    law_handles_what_inherits(m.vm, stored, exc, chain);
    assert(m.armed_for(off, exc) == armed_handler(m, off, chain));
    if !armed_handler(m, off, chain) {
        if k + 1 < offs.len() {
            assert(called_by(m, offs, k));
            lemma_nearest(m, offs, k + 1, exc, chain);
        } else {
            assert(offs.last() == offs[k]);
        }
    } else {
        assert(armed_handler(m, offs[k], chain));
    }
}

/// An exception that is signalled finds the nearest frame, from the running
/// one outwards, with an armed handler for its class or for one above it;
/// where no frame of the whole chain has one it finds nil.
pub proof fn law_nearest_handler_is_found(
    m: Machine,
    offs: Seq<u64>,
    chain: Seq<Value>,
    r: u8,
    argc: int,
    dest: u8,
)
    requires
        call_chain(m, offs),
        at_base(m, offs.last()),
        offs[0] == m.regs.frame,
        lineage(m.vm, m.get(r + 1), chain),
        !m.get(r + 2).tagged_int(),
    ensures
        m.dispatched_primitive(PRIM_FIND_HANDLER, r, argc, dest) matches Ok((w, o)) && w == m && (
        o matches Outcome::Value(found) && {
            ||| found == m.vm.nil() && forall|j: int|
                0 <= j < offs.len() ==> !armed_handler(m, #[trigger] offs[j], chain)
            ||| exists|j: int|
                0 <= j < offs.len() && found == crate::value::tag(offs[j] as i64)
                    && #[trigger] armed_handler(m, offs[j], chain) && forall|i: int|
                    0 <= i < j ==> !armed_handler(m, #[trigger] offs[i], chain)
        }),
{
    reveal(Machine::dispatched_primitive);
    reveal(Machine::object_primitive);
    reveal(Machine::control_primitive);
    reveal(Machine::prim_find_handler);
    lemma_nearest(m, offs, 0, m.get(r + 1), chain);
}

/// A search that goes on from a handler's frame finds the nearest one among
/// its callers.
pub proof fn law_outer_handler_is_found(
    m: Machine,
    offs: Seq<u64>,
    chain: Seq<Value>,
    r: u8,
    argc: int,
    dest: u8,
)
    requires
        call_chain(m, offs),
        at_base(m, offs.last()),
        offs.len() > 1,
        m.get(r + 2).tagged_int(),
        m.get(r + 2).int_value() == offs[0],
        lineage(m.vm, m.get(r + 1), chain),
    ensures
        m.dispatched_primitive(PRIM_FIND_HANDLER, r, argc, dest) matches Ok((w, o)) && w == m && (
        o matches Outcome::Value(found) && {
            let outer = offs.skip(1);
            ||| found == m.vm.nil() && forall|j: int|
                0 <= j < outer.len() ==> !armed_handler(m, #[trigger] outer[j], chain)
            ||| exists|j: int|
                0 <= j < outer.len() && found == crate::value::tag(outer[j] as i64)
                    && #[trigger] armed_handler(m, outer[j], chain) && forall|i: int|
                    0 <= i < j ==> !armed_handler(m, #[trigger] outer[i], chain)
        }),
{
    reveal(Machine::dispatched_primitive);
    reveal(Machine::object_primitive);
    reveal(Machine::control_primitive);
    reveal(Machine::prim_find_handler);
    let outer = offs.skip(1);
    assert(called_by(m, offs, 0));
    assert forall|k: int| 0 <= k < outer.len() - 1 implies #[trigger] called_by(m, outer, k) by {
        assert(called_by(m, offs, k + 1));
    }
    assert(outer.last() == offs.last());
    lemma_nearest(m, outer, 0, m.get(r + 1), chain);
}

// ---------------------------------------------------------------------------
// Unwinding
// ---------------------------------------------------------------------------
/// The slots of the frame at an offset, its words included.
pub open spec fn frame_top(m: Machine, off: u64) -> int {
    off + FRAME_RECEIVER + crate::vm::mh_frame_slots(
        m.vm.field(
            m.vm.field(m.regs.stack, off + FRAME_METHOD),
            METHOD_HEADER as int,
        ).int_value(),
    )
}

/// The ensure block of the frame at an offset, where it has one that has not
/// run yet.
pub open spec fn pending_block(m: Machine, off: u64) -> bool {
    let flags = m.vm.field(m.regs.stack, off + FRAME_FLAGS);
    let block = m.vm.field(m.regs.stack, handler_slot(m, off) + ENSURE_SLOT_BLOCK);
    flags.int_value() & 2 != 0 && m.vm.is_a(block, CLASS_BLOCKCLOSURE)
}

/// A frame that was called lies above the words, the method and the handler
/// slots of its caller, and the running stack holds both; what the caller
/// keeps as an ensure block is an object or no pointer.
pub open spec fn frame_fits(
    m: Machine,
    young: Seq<usize>,
    old: Seq<usize>,
    off: u64,
    above: int,
    top: int,
) -> bool {
    let method = m.vm.field(m.regs.stack, off + FRAME_METHOD);
    let block = m.vm.field(m.regs.stack, handler_slot(m, off) + ENSURE_SLOT_BLOCK);
    &&& off + FRAME_RECEIVER <= above
    &&& off + FRAME_RECEIVER <= handler_slot(m, off)
    &&& handler_slot(m, off) + ENSURE_SLOT_PENDING_VALUE < above
    &&& above <= top
    &&& off + FRAME_RECEIVER <= frame_top(m, off) <= top
    &&& method != m.regs.stack
    &&& roomy(m.vm.heap, young, old, method.addr(), METHOD_HEADER as int)
    &&& block.tagged_ptr() ==> listed(young, block.addr()) || listed(old, block.addr())
}

/// The running stack has `top` slots in use at most.
pub open spec fn frames_fit(
    m: Machine,
    young: Seq<usize>,
    old: Seq<usize>,
    offs: Seq<u64>,
    top: int,
) -> bool {
    &&& call_chain(m, offs)
    &&& m.regs.frame == offs[0]
    &&& m.regs.method == m.vm.field(m.regs.stack, offs[0] + FRAME_METHOD)
    &&& stack_here(m, young, old, top)
    &&& forall|k: int|
        0 <= k < offs.len() ==> #[trigger] fits_at(m, young, old, offs, top, k)
}

/// Where the frame above frame `k` begins.
pub open spec fn next_above(offs: Seq<u64>, top: int, k: int) -> int {
    if k == 0 {
        top
    } else {
        offs[k - 1] as int
    }
}

/// Frame `k` lies below the one that it called.
pub open spec fn fits_at(
    m: Machine,
    young: Seq<usize>,
    old: Seq<usize>,
    offs: Seq<u64>,
    top: int,
    k: int,
) -> bool {
    frame_fits(m, young, old, offs[k], next_above(offs, top, k), top)
}

/// Where a machine is in the course of an unwind: `i` frames are popped, and
/// nothing below them has changed.
pub open spec fn popped_to(
    m: Machine,
    w: Machine,
    young: Seq<usize>,
    old: Seq<usize>,
    offs: Seq<u64>,
    top: int,
    i: int,
) -> bool {
    let above = next_above(offs, top, i);
    &&& 0 <= i < offs.len()
    &&& w.regs.stack == m.regs.stack
    &&& w.regs.frame == offs[i]
    &&& w.regs.method == m.vm.field(m.regs.stack, offs[i] + FRAME_METHOD)
    &&& w.regs.halted == m.regs.halted
    &&& w.vm.active == m.vm.active
    &&& same_but(m.vm, w.vm, young, old, slots_of(m.regs.stack, above, top))
}

/// What a frame that is not popped yet holds is as it was.
#[verifier::rlimit(40)]
proof fn lemma_frame_same(
    m: Machine,
    w: Machine,
    young: Seq<usize>,
    old: Seq<usize>,
    offs: Seq<u64>,
    top: int,
    i: int,
)
    requires
        frames_fit(m, young, old, offs, top),
        popped_to(m, w, young, old, offs, top, i),
    ensures
        w.vm.field(m.regs.stack, offs[i] + FRAME_CALLER) == m.vm.field(
            m.regs.stack,
            offs[i] + FRAME_CALLER,
        ),
        w.flags_at(offs[i] as int) == m.flags_at(offs[i] as int),
        w.vm.method_bits(w.regs.method) == m.vm.field(
            m.vm.field(m.regs.stack, offs[i] + FRAME_METHOD),
            METHOD_HEADER as int,
        ).int_value(),
        w.ensure_block() is Some <==> pending_block(m, offs[i]),
        w.ensure_block() matches Some((hsb, block)) ==> offs[i] + FRAME_RECEIVER + hsb
            == handler_slot(m, offs[i]) && block == m.vm.field(
            m.regs.stack,
            handler_slot(m, offs[i]) + ENSURE_SLOT_BLOCK,
        ),
{
    let above = next_above(offs, top, i);
    let st = m.regs.stack;
    assert(fits_at(m, young, old, offs, top, i));
    let s = slots_of(st, above, top);
    let off = offs[i] as int;
    let method = m.vm.field(st, off + FRAME_METHOD);
    assert(roomy(m.vm.heap, young, old, st.addr(), off + FRAME_CALLER));
    assert(roomy(m.vm.heap, young, old, st.addr(), off + FRAME_FLAGS));
    assert(w.vm.field(st, off + FRAME_CALLER) == m.vm.field(st, off + FRAME_CALLER));
    assert(w.vm.field(st, off + FRAME_FLAGS) == m.vm.field(st, off + FRAME_FLAGS));
    assert(w.vm.field(method, METHOD_HEADER as int) == m.vm.field(method, METHOD_HEADER as int));
    let j = handler_slot(m, offs[i]) + ENSURE_SLOT_BLOCK;
    assert(roomy(m.vm.heap, young, old, st.addr(), j));
    assert(w.vm.field(st, j) == m.vm.field(st, j));
    let block = m.vm.field(st, j);
    assert(w.vm.is_a(block, CLASS_BLOCKCLOSURE) == m.vm.is_a(block, CLASS_BLOCKCLOSURE)) by {
        reveal(VmView::class_no);
        if block.tagged_ptr() {
            crate::queues::lemma_apart_all(m.vm.heap, young, old, block.addr(), block.addr());
            crate::queues::lemma_apart_all(w.vm.heap, young, old, block.addr(), block.addr());
            assert(w.vm.heap.hdr(block.addr()).class_field() == m.vm.heap.hdr(
                block.addr(),
            ).class_field());
        }
    }
}

/// One more frame popped.
#[verifier::rlimit(40)]
proof fn lemma_popped_one(
    m: Machine,
    w: Machine,
    young: Seq<usize>,
    old: Seq<usize>,
    offs: Seq<u64>,
    top: int,
    i: int,
)
    requires
        frames_fit(m, young, old, offs, top),
        popped_to(m, w, young, old, offs, top, i),
        i + 1 < offs.len(),
    ensures
        popped_to(m, w.popped(offs[i + 1]), young, old, offs, top, i + 1),
{
    reveal(Machine::popped);
    reveal(VmView::reloaded);
    lemma_frame_same(m, w, young, old, offs, top, i);
    let st = m.regs.stack;
    let off = offs[i] as int;
    let above = next_above(offs, top, i);
    assert(called_by(m, offs, i));
    assert(fits_at(m, young, old, offs, top, i));
    assert(fits_at(m, young, old, offs, top, i + 1));
    let n = frame_top(m, offs[i]);
    assert(roomy(m.vm.heap, young, old, st.addr(), n - 1));
    assert(roomy(w.vm.heap, young, old, st.addr(), n - 1));
    lemma_nilled_fields(w.vm, young, old, st, off, n);
    let u = w.vm.nilled(st, off, n);
    let s = slots_of(st, above, top);
    let t = slots_of(st, off, n);
    lemma_same_but_on(m.vm, w.vm, u, young, old, s, t);
    lemma_same_but_more(m.vm, u, young, old, s.union(t), slots_of(st, off, top));
    assert(roomy(m.vm.heap, young, old, st.addr(), offs[i + 1] + FRAME_METHOD));
    assert(u.field(st, offs[i + 1] + FRAME_METHOD) == m.vm.field(
        st,
        offs[i + 1] + FRAME_METHOD,
    ));
}

/// The machine as an unwind finds it: the frames above the first one with a
/// pending ensure block, or above the last one, are popped.
proof fn lemma_unwinds(
    m: Machine,
    w: Machine,
    young: Seq<usize>,
    old: Seq<usize>,
    offs: Seq<u64>,
    top: int,
    i: int,
    k: int,
    x: Value,
) -> (u: Machine)
    requires
        frames_fit(m, young, old, offs, top),
        popped_to(m, w, young, old, offs, top, i),
        i <= k < offs.len(),
        forall|j: int| i <= j < k ==> !pending_block(m, #[trigger] offs[j]),
        k < offs.len() - 1 ==> pending_block(m, offs[k]),
    ensures
        popped_to(m, u, young, old, offs, top, k),
        w.unwinding(offs.last(), x) == u.unwinding(offs.last(), x),
    decreases k - i,
{
    if i < k {
        lemma_frame_same(m, w, young, old, offs, top, i);
        assert(called_by(m, offs, i));
        assert(!pending_block(m, offs[i]));
        lemma_popped_one(m, w, young, old, offs, top, i);
        lemma_descending(m, offs, i);
        let w1 = w.popped(offs[i + 1]);
        assert(w.unwinding(offs.last(), x) == w1.unwinding(offs.last(), x));
        lemma_unwinds(m, w1, young, old, offs, top, i + 1, k, x)
    } else {
        w
    }
}

/// Callers lie below those they call.
proof fn lemma_descending(m: Machine, offs: Seq<u64>, i: int)
    requires
        call_chain(m, offs),
        0 <= i < offs.len() - 1,
    ensures
        offs.last() < offs[i],
        0 < offs.last(),
    decreases offs.len() - i,
{
    assert(called_by(m, offs, i));
    if i + 1 < offs.len() - 1 {
        lemma_descending(m, offs, i + 1);
    }
}

/// A machine that returned a value from the frame at an offset: the caller
/// goes on where that frame says, with the value in the slot that it says,
/// and nothing else below the frame has changed.
pub open spec fn returned_from(m: Machine, w: Machine, off: u64, caller: u64, x: Value) -> bool {
    let st = m.regs.stack;
    let ri = m.vm.field(st, off + FRAME_RETINFO).int_value();
    &&& w.regs.stack == st
    &&& w.regs.frame == caller
    &&& w.regs.pc == offset_of((ri >> 8u32) as i64)
    &&& w.regs.halted == m.regs.halted
    &&& w.get((ri & 0xff) as int) == x
    &&& w.regs.method == m.vm.field(st, caller + FRAME_METHOD)
    &&& forall|j: int|
        0 <= j < off && j != caller + FRAME_RECEIVER + (ri & 0xff) ==> #[trigger] w.vm.field(st, j)
            == m.vm.field(st, j)
}

/// The frame at an offset can return to its caller's frame.
pub open spec fn can_return(m: Machine, off: u64, caller: u64, top: int) -> bool {
    let st = m.regs.stack;
    &&& m.flags_at(off as int).int_value() & 8 == 0
    &&& m.vm.field(st, off + FRAME_CALLER).int_value() == caller
    &&& 0 < caller
    &&& caller + FRAME_RECEIVER <= off
    &&& caller + FRAME_RECEIVER + (m.vm.field(st, off + FRAME_RETINFO).int_value() & 0xff) < top
}

#[verifier::rlimit(60)]
#[verifier::spinoff_prover]
proof fn lemma_last_return(
    m: Machine,
    u: Machine,
    young: Seq<usize>,
    old: Seq<usize>,
    offs: Seq<u64>,
    top: int,
    x: Value,
    caller: u64,
)
    requires
        frames_fit(m, young, old, offs, top),
        popped_to(m, u, young, old, offs, top, offs.len() - 1),
        can_return(m, offs.last(), caller, top),
    ensures
        u.unwinding(offs.last(), x) matches Ok(w) && returned_from(m, w, offs.last(), caller, x),
{
    let st = m.regs.stack;
    let last = offs.len() - 1;
    lemma_frame_same(m, u, young, old, offs, top, last);
    let above = next_above(offs, top, last);
    let s = slots_of(st, above, top);
    let f = offs.last() as int;
    assert(fits_at(m, young, old, offs, top, last));
    assert(roomy(m.vm.heap, young, old, st.addr(), f + FRAME_RETINFO));
    assert(u.vm.field(st, f + FRAME_RETINFO) == m.vm.field(st, f + FRAME_RETINFO));
    let ri = m.vm.field(st, f + FRAME_RETINFO).int_value();
    crate::frames::lemma_retinfo(ri);
    assert(roomy(
        u.vm.heap,
        young,
        old,
        m.vm.active.addr(),
        PROCESS_SERIAL_COUNTER as int,
    ));
    let n = frame_top(m, offs[last]);
    assert(roomy(m.vm.heap, young, old, st.addr(), n - 1));
    assert(roomy(u.vm.heap, young, old, st.addr(), n - 1));
    let d = caller + FRAME_RECEIVER + (ri & 0xff);
    assert(roomy(m.vm.heap, young, old, st.addr(), d));
    assert(roomy(u.vm.heap, young, old, st.addr(), d));
    crate::calls::law_return_gives_the_value(u, young, old, x, caller);
    let w = u.returned_plain(x);
    assert(roomy(m.vm.heap, young, old, st.addr(), caller + FRAME_METHOD));
    assert(u.vm.field(st, caller + FRAME_METHOD) == m.vm.field(st, caller + FRAME_METHOD));
    assert forall|j: int| 0 <= j < f && j != d implies #[trigger] w.vm.field(st, j) == m.vm.field(
        st,
        j,
    ) by {
        assert(roomy(m.vm.heap, young, old, st.addr(), j));
        assert(w.vm.field(st, j) == u.vm.field(st, j));
        assert(!s.contains((st, j)));
        assert(u.vm.field(st, j) == m.vm.field(st, j));
    }
}

proof fn lemma_unwind_begun(
    m: Machine,
    young: Seq<usize>,
    old: Seq<usize>,
    offs: Seq<u64>,
    top: int,
)
    requires
        frames_fit(m, young, old, offs, top),
    ensures
        popped_to(m, m.unwind_counted(), young, old, offs, top, 0),
{
    let m0 = m.unwind_counted();
    lemma_same_but_self(m.vm, m0.vm, young, old);
    lemma_same_but_more(
        m.vm,
        m0.vm,
        young,
        old,
        Set::empty(),
        slots_of(m.regs.stack, top, top),
    );
    assert(fits_at(m, young, old, offs, top, 0));
}

/// An unwind to a frame without a pending ensure block on its way returns
/// the value from that frame to its caller, wherever the unwind began.
pub proof fn law_unwind_returns_from_the_target(
    m: Machine,
    young: Seq<usize>,
    old: Seq<usize>,
    offs: Seq<u64>,
    top: int,
    x: Value,
    caller: u64,
)
    requires
        frames_fit(m, young, old, offs, top),
        forall|j: int| 0 <= j < offs.len() - 1 ==> !pending_block(m, #[trigger] offs[j]),
        can_return(m, offs.last(), caller, top),
    ensures
        m.unwound(offs.last(), x) matches Ok(w) && returned_from(m, w, offs.last(), caller, x),
{
    lemma_unwind_begun(m, young, old, offs, top);
    let u = lemma_unwinds(
        m,
        m.unwind_counted(),
        young,
        old,
        offs,
        top,
        0,
        offs.len() - 1,
        x,
    );
    lemma_last_return(m, u, young, old, offs, top, x, caller);
}

/// The slots of an ensure frame hold the unwind that goes on when its block
/// has run, and the block is marked as run.
pub open spec fn unwind_stashed(
    m: Machine,
    w: Machine,
    off: u64,
    target: u64,
    x: Value,
) -> bool {
    let at = handler_slot(m, off);
    let st = m.regs.stack;
    &&& w.vm.field(st, at + ENSURE_SLOT_BLOCK) == m.vm.nil()
    &&& w.vm.field(st, at + ENSURE_SLOT_PENDING_TARGET) == crate::value::tag(target as i64)
    &&& w.vm.field(st, at + ENSURE_SLOT_PENDING_SERIAL) == crate::value::tag(
        (m.flags_at(target as int).int_value() >> 32u32) as i64,
    )
    &&& w.vm.field(st, at + ENSURE_SLOT_PENDING_VALUE) == x
}

/// An unwind stops at the first frame on its way, from the running one
/// outwards, with a pending ensure block, and runs that block on top of the
/// frame: with the block itself as the receiver, from its first instruction.
/// The frame keeps where the unwind leads and its value, and the block does
/// not run again. Nothing below the frame changes.
#[verifier::rlimit(80)]
#[verifier::spinoff_prover]
pub proof fn law_unwind_runs_the_ensure_block(
    m: Machine,
    young: Seq<usize>,
    old: Seq<usize>,
    offs: Seq<u64>,
    top: int,
    k: int,
    x: Value,
)
    requires
        frames_fit(m, young, old, offs, top),
        0 <= k < offs.len() - 1,
        forall|j: int| 0 <= j < k ==> !pending_block(m, #[trigger] offs[j]),
        pending_block(m, offs[k]),
        handler_slot(m, offs[k]) + ENSURE_SLOT_PENDING_VALUE < frame_top(m, offs[k]),
        frame_top(m, offs[k]) - offs[k] <= 255,
        ({
            let st = m.regs.stack;
            let block = m.vm.field(st, handler_slot(m, offs[k]) + ENSURE_SLOT_BLOCK);
            let code = m.vm.field(block, CLOSURE_COMPILED_BLOCK as int);
            let bits = m.vm.field(code, METHOD_HEADER as int).int_value();
            &&& block != st
            &&& code != st
            &&& roomy(m.vm.heap, young, old, block.addr(), CLOSURE_COMPILED_BLOCK as int)
            &&& roomy(m.vm.heap, young, old, code.addr(), METHOD_HEADER as int)
            &&& crate::vm::mh_argc(bits) == 0
            &&& 0 < crate::vm::mh_frame_slots(bits)
            &&& frame_top(m, offs[k]) + FRAME_RECEIVER + crate::vm::mh_frame_slots(bits) <= top
            &&& m.vm.slots(st) >= top
        }),
    ensures
        m.unwound(offs.last(), x) matches Ok(w) && {
            let st = m.regs.stack;
            let block = m.vm.field(st, handler_slot(m, offs[k]) + ENSURE_SLOT_BLOCK);
            &&& w.regs.stack == st
            &&& w.regs.frame == frame_top(m, offs[k])
            &&& w.regs.method == m.vm.field(block, CLOSURE_COMPILED_BLOCK as int)
            &&& w.regs.pc == 0
            &&& w.get(0) == block
            &&& w.vm.field(st, w.regs.frame + FRAME_CALLER) == crate::value::tag(offs[k] as i64)
            &&& w.flags_at(w.regs.frame as int).int_value() & 8 != 0
            &&& unwind_stashed(m, w, offs[k], offs.last(), x)
            &&& forall|j: int|
                0 <= j < offs[k] + FRAME_RECEIVER ==> #[trigger] w.vm.field(st, j) == m.vm.field(st, j)
        },
{
    lemma_unwind_begun(m, young, old, offs, top);
    let target = offs.last();
    let u = lemma_unwinds(m, m.unwind_counted(), young, old, offs, top, 0, k, x);
    lemma_frame_same(m, u, young, old, offs, top, k);
    lemma_descending(m, offs, k);
    reveal(Machine::ensure_run);
    let st = m.regs.stack;
    let off = offs[k] as int;
    let at = handler_slot(m, offs[k]);
    let block = m.vm.field(st, at + ENSURE_SLOT_BLOCK);
    let code = m.vm.field(block, CLOSURE_COMPILED_BLOCK as int);
    let hsb = at - off - FRAME_RECEIVER;
    assert(fits_at(m, young, old, offs, top, k));
    let above = next_above(offs, top, k);
    let s = slots_of(st, off + FRAME_RECEIVER, top);
    lemma_same_but_more(m.vm, u.vm, young, old, slots_of(st, above, top), s);
    assert forall|j: int| 0 <= j < top implies roomy(m.vm.heap, young, old, st.addr(), j) by {}
    let v0 = VmView {
        ctr: crate::counters::CountersView {
            ensure_interceptions: u.vm.ctr.ensure_interceptions.wrapping_add(1),
            ..u.vm.ctr
        },
        ..u.vm
    };
    lemma_same_but_self(u.vm, v0, young, old);
    lemma_same_but_on(m.vm, u.vm, v0, young, old, s, Set::empty());
    assert(s.union(Set::empty()) =~= s);
    let serial = (u.flags_at(target as int).int_value() >> 32u32) as i64;
    assert(u.flags_at(target as int) == m.flags_at(target as int)) by {
        assert(roomy(m.vm.heap, young, old, st.addr(), target + FRAME_FLAGS));
        lemma_target_below(m, young, old, offs, top, k);
    }
    let a0 = at + ENSURE_SLOT_BLOCK;
    let a1 = at + ENSURE_SLOT_PENDING_TARGET;
    let a2 = at + ENSURE_SLOT_PENDING_SERIAL;
    let a3 = at + ENSURE_SLOT_PENDING_VALUE;
    let x1 = crate::value::tag(target as i64);
    let x2 = crate::value::tag(serial);
    lemma_set_among(m.vm, v0, young, old, s, st, a0, m.vm.nil());
    let v1 = v0.with_field(st, a0, m.vm.nil());
    lemma_set_among(m.vm, v1, young, old, s, st, a1, x1);
    let v2 = v1.with_field(st, a1, x1);
    lemma_set_among(m.vm, v2, young, old, s, st, a2, x2);
    let v3 = v2.with_field(st, a2, x2);
    lemma_set_among(m.vm, v3, young, old, s, st, a3, x);
    let v4 = v3.with_field(st, a3, x);
    assert(roomy(v1.heap, young, old, st.addr(), a0) && roomy(v2.heap, young, old, st.addr(), a0)
        && roomy(v3.heap, young, old, st.addr(), a0) && roomy(v4.heap, young, old, st.addr(), a0));
    assert(roomy(v2.heap, young, old, st.addr(), a1) && roomy(v3.heap, young, old, st.addr(), a1));
    assert(roomy(v3.heap, young, old, st.addr(), a2));
    assert(v2.field(st, a0) == v1.field(st, a0));
    assert(v3.field(st, a0) == v2.field(st, a0) && v3.field(st, a1) == v2.field(st, a1));
    assert(v4.field(st, a0) == v3.field(st, a0) && v4.field(st, a1) == v3.field(st, a1)
        && v4.field(st, a2) == v3.field(st, a2));
    let m4 = u.on(v4);
    let r = frame_top(m, offs[k]) - off;
    let method = m.vm.field(st, off + FRAME_METHOD);
    assert(v4.field(method, METHOD_HEADER as int) == m.vm.field(method, METHOD_HEADER as int));
    assert(v4.field(block, CLOSURE_COMPILED_BLOCK as int) == code);
    assert(v4.field(code, METHOD_HEADER as int) == m.vm.field(code, METHOD_HEADER as int));
    assert(m4.vm.slots(st) >= top) by {
        lemma_same_slots(m.vm, m4.vm, young, old, s, st, top);
    }
    lemma_ensure_call(m, m4, young, old, s, off, r, block, code, top);
    let m5 = m4.put(r, block);
    let w = m5.framed(code, r as u8, 0, 0, None, FLAG_BLOCKCTX | FLAG_UNWINDCONT);
    assert(m.unwound(target, x) == Ok::<Machine, Fault>(w));
    assert(w.vm.field(st, a0) == v4.field(st, a0));
    assert(w.vm.field(st, a1) == v4.field(st, a1));
    assert(w.vm.field(st, a2) == v4.field(st, a2));
    assert(w.vm.field(st, a3) == v4.field(st, a3));
    assert forall|j: int| 0 <= j < off + FRAME_RECEIVER implies #[trigger] w.vm.field(st, j)
        == m.vm.field(st, j) by {
        assert(roomy(m.vm.heap, young, old, st.addr(), j));
        assert(w.vm.field(st, j) == v4.field(st, j));
        assert(!s.contains((st, j)));
        assert(v4.field(st, j) == m.vm.field(st, j));
    }
}

/// The target of an unwind lies below the frame above it.
proof fn lemma_target_below(
    m: Machine,
    young: Seq<usize>,
    old: Seq<usize>,
    offs: Seq<u64>,
    top: int,
    k: int,
)
    requires
        frames_fit(m, young, old, offs, top),
        0 <= k < offs.len() - 1,
    ensures
        offs.last() + FRAME_RECEIVER <= offs[k],
    decreases offs.len() - k,
{
    assert(fits_at(m, young, old, offs, top, k + 1));
    if k + 1 < offs.len() - 1 {
        lemma_target_below(m, young, old, offs, top, k + 1);
    }
}

/// An object has as many slots as before.
proof fn lemma_same_slots(
    v: VmView,
    w: VmView,
    young: Seq<usize>,
    old: Seq<usize>,
    s: Set<(Value, int)>,
    o: Value,
    n: int,
)
    requires
        same_but(v, w, young, old, s),
        n > 0,
        roomy(v.heap, young, old, o.addr(), n - 1),
    ensures
        w.slots(o) >= n,
{
    reveal(VmView::slots);
    assert(roomy(w.heap, young, old, o.addr(), n - 1));
    crate::queues::lemma_apart_all(w.heap, young, old, o.addr(), o.addr());
}

/// The block of an ensure frame called on top of it.
#[verifier::rlimit(60)]
#[verifier::spinoff_prover]
proof fn lemma_ensure_call(
    m: Machine,
    w: Machine,
    young: Seq<usize>,
    old: Seq<usize>,
    s: Set<(Value, int)>,
    off: int,
    r: int,
    block: Value,
    code: Value,
    top: int,
)
    requires
        stack_here(m, young, old, top),
        same_but(m.vm, w.vm, young, old, s),
        w.regs.stack == m.regs.stack,
        w.vm.active == m.vm.active,
        w.regs.frame == off,
        FRAME_RECEIVER <= r <= 255,
        code != m.regs.stack,
        roomy(m.vm.heap, young, old, code.addr(), METHOD_HEADER as int),
        0 < crate::vm::mh_frame_slots(w.vm.method_bits(code)),
        off + r + FRAME_RECEIVER + crate::vm::mh_frame_slots(w.vm.method_bits(code)) <= top,
    ensures
        ({
            let c = w.put(r, block).framed(
                code,
                r as u8,
                0,
                0,
                None,
                FLAG_BLOCKCTX | FLAG_UNWINDCONT,
            );
            let st = m.regs.stack;
            &&& w.put(r, block).vm.method_bits(code) == w.vm.method_bits(code)
            &&& w.put(r, block).vm.slots(st) >= top
            &&& c.regs.stack == st
            &&& c.regs.frame == off + r
            &&& c.regs.method == code
            &&& c.regs.pc == 0
            &&& c.get(0) == block
            &&& c.vm.field(st, off + r + FRAME_CALLER) == crate::value::tag(off as i64)
            &&& c.flags_at(off + r).int_value() & 8 != 0
            &&& forall|j: int| 0 <= j < off + r ==> #[trigger] c.vm.field(st, j) == w.vm.field(st, j)
        }),
{
    let st = m.regs.stack;
    let j0 = off + FRAME_RECEIVER + r;
    assert(roomy(m.vm.heap, young, old, st.addr(), j0));
    assert(roomy(w.vm.heap, young, old, st.addr(), j0));
    crate::fields::lemma_field_set(w.vm, young, old, st, j0, block);
    let p = w.put(r, block);
    assert(roomy(w.vm.heap, young, old, code.addr(), METHOD_HEADER as int));
    assert(p.vm.field(code, METHOD_HEADER as int) == w.vm.field(code, METHOD_HEADER as int));
    assert(roomy(w.vm.heap, young, old, st.addr(), top - 1));
    lemma_same_slots(w.vm, p.vm, young, old, set![(st, j0)], st, top);
    let n = off + r + FRAME_RECEIVER + crate::vm::mh_frame_slots(w.vm.method_bits(code));
    assert(roomy(m.vm.heap, young, old, st.addr(), n - 1));
    assert(roomy(w.vm.heap, young, old, st.addr(), n - 1));
    assert(roomy(p.vm.heap, young, old, st.addr(), n - 1));
    assert(roomy(
        w.vm.heap,
        young,
        old,
        m.vm.active.addr(),
        PROCESS_SERIAL_COUNTER as int,
    ));
    assert(roomy(
        p.vm.heap,
        young,
        old,
        m.vm.active.addr(),
        PROCESS_SERIAL_COUNTER as int,
    ));
    crate::calls::lemma_frame_words(0, 0, 0, 0);
    let extra = FLAG_BLOCKCTX | FLAG_UNWINDCONT;
    crate::calls::law_call_enters_the_method(p, young, old, code, r as u8, 0, 0, extra);
    let c = p.framed(code, r as u8, 0, 0, None, extra);
    assert(c.get(0) == p.get(r + 0));
    let t = crate::calls::call_fields(p, off + r, n);
    assert forall|j: int| 0 <= j < off + r implies #[trigger] c.vm.field(st, j) == w.vm.field(st, j) by {
        assert(roomy(m.vm.heap, young, old, st.addr(), j));
        assert(roomy(w.vm.heap, young, old, st.addr(), j));
        assert(roomy(p.vm.heap, young, old, st.addr(), j));
        assert(!t.contains((st, j)));
        assert(c.vm.field(st, j) == p.vm.field(st, j));
        assert(p.vm.field(st, j) == w.vm.field(st, j));
    }
}

/// When an ensure block returns, the unwind that it interrupted goes on: with
/// no other block on its way it returns the value that was stashed, whatever
/// the block itself answers, from the frame that the unwind led to.
#[verifier::rlimit(60)]
#[verifier::spinoff_prover]
pub proof fn law_ensure_block_return_resumes(
    m: Machine,
    young: Seq<usize>,
    old: Seq<usize>,
    offs: Seq<u64>,
    top: int,
    y: Value,
    x: Value,
    caller: u64,
)
    requires
        frames_fit(m, young, old, offs, top),
        offs.len() > 2,
        m.flags_at(offs[0] as int).int_value() & 8 != 0,
        ({
            let at = handler_slot(m, offs[1]);
            let st = m.regs.stack;
            let f = m.flags_at(offs.last() as int);
            let serial = m.vm.field(st, at + ENSURE_SLOT_PENDING_SERIAL);
            let target = m.vm.field(st, at + ENSURE_SLOT_PENDING_TARGET);
            &&& target.tagged_int()
            &&& target.int_value() == offs.last()
            &&& f.tagged_int()
            &&& f.int_value() >> 32u32 == serial.int_value()
            &&& m.vm.field(st, at + ENSURE_SLOT_PENDING_VALUE) == x
        }),
        forall|j: int| 1 <= j < offs.len() - 1 ==> !pending_block(m, #[trigger] offs[j]),
        can_return(m, offs.last(), caller, top),
    ensures
        m.returned(y) matches Ok(w) && returned_from(m, w, offs.last(), caller, x),
{
    reveal(Machine::unwind_resumed);
    let st = m.regs.stack;
    let target = offs.last();
    lemma_unwind_begun(m, young, old, offs, top);
    assert(popped_to(m, m, young, old, offs, top, 0)) by {
        lemma_same_but_self(m.vm, m.vm, young, old);
        lemma_same_but_more(m.vm, m.vm, young, old, Set::empty(), slots_of(st, top, top));
    }
    assert(called_by(m, offs, 0));
    lemma_popped_one(m, m, young, old, offs, top, 0);
    let p = m.popped(offs[1]);
    lemma_frame_same(m, p, young, old, offs, top, 1);
    assert(fits_at(m, young, old, offs, top, 1));
    let at = handler_slot(m, offs[1]);
    let s = slots_of(st, offs[0] as int, top);
    assert forall|j: int| 0 <= j < offs[0] implies #[trigger] p.vm.field(st, j) == m.vm.field(st, j) by {
        assert(fits_at(m, young, old, offs, top, 0));
        assert(roomy(m.vm.heap, young, old, st.addr(), j));
        assert(!s.contains((st, j)));
    }
    lemma_target_below(m, young, old, offs, top, 1);
    lemma_target_below(m, young, old, offs, top, 0);
    assert(p.get(at - offs[1] - FRAME_RECEIVER + ENSURE_SLOT_PENDING_TARGET) == m.vm.field(
        st,
        at + ENSURE_SLOT_PENDING_TARGET,
    ));
    assert(p.get(at - offs[1] - FRAME_RECEIVER + ENSURE_SLOT_PENDING_SERIAL) == m.vm.field(
        st,
        at + ENSURE_SLOT_PENDING_SERIAL,
    ));
    assert(p.get(at - offs[1] - FRAME_RECEIVER + ENSURE_SLOT_PENDING_VALUE) == x);
    assert(p.flags_at(target as int) == m.flags_at(target as int));
    lemma_descending(m, offs, 1);
    assert(m.unwind_resumed() == Ok::<(Machine, u64, Value), Fault>((p, target, x)));
    let q = p.unwind_counted();
    assert(popped_to(m, q, young, old, offs, top, 1)) by {
        lemma_same_but_self(p.vm, q.vm, young, old);
        lemma_same_but_on(m.vm, p.vm, q.vm, young, old, s, Set::empty());
        assert(s.union(Set::empty()) =~= s);
    }
    let u = lemma_unwinds(m, q, young, old, offs, top, 1, offs.len() - 1, x);
    lemma_last_return(m, u, young, old, offs, top, x, caller);
}

} // verus!
