//! Blocks: what a closure holds, how it is entered, and where a return out of
//! it leads.

use crate::calls::{call_fields, law_call_enters_the_method, return_word, stack_here};
use crate::fields::{
    lemma_field_kept, lemma_field_set, lemma_same_but_more, lemma_same_but_on, same_but,
};
use crate::handlers::{called_by, can_return, fits_at, frames_fit, pending_block, returned_from};
use crate::interp::Fields;
use crate::machine::Machine;
use crate::prims::{FAIL_WRONG_ARGC, FAIL_WRONG_TYPE};
use crate::queues::{laid_out, roomy};
use crate::requests::Outcome;
use crate::treaty::{
    CLASS_BLOCKCLOSURE, CLOSURE_CAPTURED_BASE, CLOSURE_COMPILED_BLOCK, CLOSURE_HOME_OFFSET,
    CLOSURE_HOME_PROCESS, CLOSURE_HOME_SERIAL, FLAG_BLOCKCTX, FRAME_CALLER, FRAME_RECEIVER,
    FRAME_RETINFO, OP_CAPTURE, OP_NLR, PRIM_BLOCK_VALUE_0, PRIM_BLOCK_VALUE_4, PROCESS_STACK,
    SPECIAL_NIL,
};
use crate::value::Value;
use crate::vm::{Fault, VmView};
use vstd::prelude::*;

verus! {

/// The running frame is a block's.
pub open spec fn in_block(m: Machine) -> bool {
    m.flags_at(m.regs.frame as int).int_value() & 4 != 0
}

/// The home that a closure names: a process, a frame of it by its offset, and
/// that frame's number.
pub open spec fn home(v: VmView, closure: Value, p: Value, off: i64, serial: i64) -> bool {
    let o = v.field(closure, CLOSURE_HOME_OFFSET as int);
    let s = v.field(closure, CLOSURE_HOME_SERIAL as int);
    &&& v.field(closure, CLOSURE_HOME_PROCESS as int) == p
    &&& o.tagged_int() && o.int_value() == off
    &&& s.tagged_int() && s.int_value() == serial
}

/// The fields of a closure below its captured values.
pub open spec fn home_fields(c: Value) -> Set<(Value, int)> {
    set![
        (c, CLOSURE_HOME_PROCESS as int),
        (c, CLOSURE_HOME_OFFSET as int),
        (c, CLOSURE_HOME_SERIAL as int),
    ]
}

proof fn lemma_home_set(
    v: VmView,
    young: Seq<usize>,
    old: Seq<usize>,
    c: Value,
    p: Value,
    o: Value,
    s: Value,
)
    requires
        laid_out(v.heap, young, old),
        roomy(v.heap, young, old, c.addr(), CLOSURE_HOME_SERIAL as int),
    ensures
        ({
            let w = v.with_field(c, CLOSURE_HOME_PROCESS as int, p).with_field(
                c,
                CLOSURE_HOME_OFFSET as int,
                o,
            ).with_field(c, CLOSURE_HOME_SERIAL as int, s);
            &&& w.field(c, CLOSURE_HOME_PROCESS as int) == p
            &&& w.field(c, CLOSURE_HOME_OFFSET as int) == o
            &&& w.field(c, CLOSURE_HOME_SERIAL as int) == s
            &&& w == v.on_heap(w.heap)
            &&& same_but(v, w, young, old, home_fields(c))
        }),
{
    let i = CLOSURE_HOME_PROCESS as int;
    let j = CLOSURE_HOME_OFFSET as int;
    let k = CLOSURE_HOME_SERIAL as int;
    assert(roomy(v.heap, young, old, c.addr(), i) && roomy(v.heap, young, old, c.addr(), j));
    lemma_field_set(v, young, old, c, i, p);
    let a = v.with_field(c, i, p);
    assert(roomy(a.heap, young, old, c.addr(), i) && roomy(a.heap, young, old, c.addr(), j)
        && roomy(a.heap, young, old, c.addr(), k));
    lemma_field_set(a, young, old, c, j, o);
    let b = a.with_field(c, j, o);
    assert(roomy(b.heap, young, old, c.addr(), i) && roomy(b.heap, young, old, c.addr(), j)
        && roomy(b.heap, young, old, c.addr(), k));
    lemma_field_set(b, young, old, c, k, s);
    let w = b.with_field(c, k, s);
    assert(b.field(c, i) == a.field(c, i));
    assert(w.field(c, i) == b.field(c, i) && w.field(c, j) == b.field(c, j));
    lemma_same_but_on(v, a, b, young, old, set![(c, i)], set![(c, j)]);
    lemma_same_but_on(v, b, w, young, old, set![(c, i)].union(set![(c, j)]), set![(c, k)]);
    lemma_same_but_more(
        v,
        w,
        young,
        old,
        set![(c, i)].union(set![(c, j)]).union(set![(c, k)]),
        home_fields(c),
    );
    assert(w == v.on_heap(w.heap)) by {
        reveal(VmView::with_field);
    }
}

/// A closure that can return from its home is made at home in the frame that
/// runs, where that is a method's, and in the home of the closure that runs
/// otherwise; so a return out of nested blocks leaves the method around them.
/// Another closure has no home.
#[verifier::rlimit(40)]
pub proof fn law_closure_is_at_home(
    m: Machine,
    young: Seq<usize>,
    old: Seq<usize>,
    c: Value,
    nlr: bool,
)
    requires
        laid_out(m.vm.heap, young, old),
        roomy(m.vm.heap, young, old, c.addr(), CLOSURE_HOME_SERIAL as int),
        m.regs.frame <= crate::value::SMALLINT_MAX,
    ensures
        ({
            let w = m.homed(c, nlr);
            let e = m.get(0);
            &&& w.regs == m.regs
            &&& same_but(m.vm, w.vm, young, old, home_fields(c))
            &&& nlr && !in_block(m) ==> home(
                w.vm,
                c,
                m.vm.active,
                m.regs.frame as i64,
                m.flags_at(m.regs.frame as int).int_value() >> 32u32,
            )
            &&& nlr && in_block(m) ==> {
                &&& w.vm.field(c, CLOSURE_HOME_PROCESS as int) == m.vm.field(
                    e,
                    CLOSURE_HOME_PROCESS as int,
                )
                &&& w.vm.field(c, CLOSURE_HOME_OFFSET as int) == m.vm.field(
                    e,
                    CLOSURE_HOME_OFFSET as int,
                )
                &&& w.vm.field(c, CLOSURE_HOME_SERIAL as int) == m.vm.field(
                    e,
                    CLOSURE_HOME_SERIAL as int,
                )
            }
            &&& !nlr ==> home(w.vm, c, m.vm.specials[SPECIAL_NIL as int], 0, 0)
        }),
{
    reveal(Machine::homed);
    let flags = m.flags_at(m.regs.frame as int).int_value();
    let e = m.get(0);
    let zero = crate::value::tag(0);
    let here = crate::value::tag(m.regs.frame as i64);
    let serial = crate::value::tag((flags >> 32u32) as i64);
    crate::value::lemma_tag_bits(0);
    crate::value::lemma_tag_bits(m.regs.frame as i64);
    crate::frames::lemma_retinfo(flags);
    crate::value::lemma_tag_bits((flags >> 32u32) as i64);
    lemma_home_set(m.vm, young, old, c, m.vm.nil(), zero, zero);
    lemma_home_set(m.vm, young, old, c, m.vm.active, here, serial);
    lemma_home_set(
        m.vm,
        young,
        old,
        c,
        m.vm.field(e, CLOSURE_HOME_PROCESS as int),
        m.vm.field(e, CLOSURE_HOME_OFFSET as int),
        m.vm.field(e, CLOSURE_HOME_SERIAL as int),
    );
}

/// A value captured is in the closure, at its place after the home, and
/// nothing else changes.
pub proof fn law_capture_holds_the_value(
    m: Machine,
    young: Seq<usize>,
    old: Seq<usize>,
    f: Fields,
    fresh: bool,
    k: u8,
)
    requires
        f.op == OP_CAPTURE,
        m.regs.closure_reg == Some(k),
        laid_out(m.vm.heap, young, old),
        roomy(m.vm.heap, young, old, m.get(k as int).addr(), CLOSURE_CAPTURED_BASE + f.a),
    ensures
        m.executed(f, fresh) matches Ok(w) && w.regs == m.regs && w.vm.field(
            m.get(k as int),
            CLOSURE_CAPTURED_BASE + f.a,
        ) == m.get(f.b as int) && same_but(
            m.vm,
            w.vm,
            young,
            old,
            set![(m.get(k as int), CLOSURE_CAPTURED_BASE + f.a)],
        ),
{
    reveal(Machine::executed);
    reveal(Machine::captured);
    lemma_field_kept(
        m.vm,
        young,
        old,
        m.get(k as int),
        CLOSURE_CAPTURED_BASE + f.a,
        m.get(f.b as int),
    );
}

// ---------------------------------------------------------------------------
// Entering a block
// ---------------------------------------------------------------------------
proof fn lemma_block_prims(m: Machine, n: u16, r: u8, argc: int, dest: u8)
    requires
        PRIM_BLOCK_VALUE_0 <= n <= PRIM_BLOCK_VALUE_4,
    ensures
        m.dispatched_primitive(n, r, argc, dest) == m.prim_block_value(
            r,
            argc,
            dest,
            n - PRIM_BLOCK_VALUE_0,
        ),
{
    reveal(Machine::dispatched_primitive);
    reveal(Machine::object_primitive);
    reveal(Machine::control_primitive);
}

/// The `value` primitives run the closure's block: in a frame of its own,
/// marked as a block's, with the closure as its receiver and the arguments
/// after it. The block returns to where the message was sent.
#[verifier::rlimit(40)]
pub proof fn law_value_runs_the_block(
    m: Machine,
    young: Seq<usize>,
    old: Seq<usize>,
    n: u16,
    r: u8,
    dest: u8,
)
    requires
        PRIM_BLOCK_VALUE_0 <= n <= PRIM_BLOCK_VALUE_4,
        FRAME_RECEIVER <= r,
        m.vm.is_a(m.get(r as int), CLASS_BLOCKCLOSURE),
        ({
            let block = m.vm.field(m.get(r as int), CLOSURE_COMPILED_BLOCK as int);
            let bits = m.vm.method_bits(block);
            &&& crate::vm::mh_argc(bits) == n - PRIM_BLOCK_VALUE_0
            &&& crate::vm::mh_argc(bits) < crate::vm::mh_frame_slots(bits)
            &&& stack_here(
                m,
                young,
                old,
                m.regs.frame + r + FRAME_RECEIVER + crate::vm::mh_frame_slots(bits),
            )
        }),
    ensures
        m.dispatched_primitive(n, r, n - PRIM_BLOCK_VALUE_0, dest) matches Ok((w, o)) && {
            let st = m.regs.stack;
            let off = m.regs.frame + r;
            let block = m.vm.field(m.get(r as int), CLOSURE_COMPILED_BLOCK as int);
            &&& o is Control
            &&& w.regs.stack == st
            &&& w.regs.frame == off
            &&& w.regs.method == block
            &&& w.regs.pc == 0
            &&& in_block(w)
            &&& w.get(0) == m.get(r as int)
            &&& forall|k: int|
                0 <= k <= n - PRIM_BLOCK_VALUE_0 ==> #[trigger] w.get(k) == m.get(r + k)
            &&& w.vm.field(st, off + FRAME_CALLER) == crate::value::tag(m.regs.frame as i64)
            &&& w.vm.field(st, off + FRAME_RETINFO) == return_word(dest, m.regs.pc)
            &&& same_but(
                m.vm,
                w.vm,
                young,
                old,
                call_fields(
                    m,
                    off,
                    off + FRAME_RECEIVER + crate::vm::mh_frame_slots(m.vm.method_bits(block)),
                ),
            )
        },
{
    let argc = n - PRIM_BLOCK_VALUE_0;
    lemma_block_prims(m, n, r, argc, dest);
    reveal(Machine::prim_block_value);
    reveal(VmView::slots);
    crate::calls::lemma_frame_words(0, 0, 0, 0);
    crate::queues::lemma_apart_all(
        m.vm.heap,
        young,
        old,
        m.regs.stack.addr(),
        m.regs.stack.addr(),
    );
    let block = m.vm.field(m.get(r as int), CLOSURE_COMPILED_BLOCK as int);
    law_call_enters_the_method(m, young, old, block, r, dest, argc, FLAG_BLOCKCTX);
    let w = m.framed(block, r, dest, argc, None, FLAG_BLOCKCTX);
    assert(w.get(0) == m.get(r + 0));
}

/// A block that takes another number of arguments is not run, nor is what is
/// no block.
pub proof fn law_value_counts_arguments(m: Machine, n: u16, r: u8, argc: int, dest: u8)
    requires
        PRIM_BLOCK_VALUE_0 <= n <= PRIM_BLOCK_VALUE_4,
        FRAME_RECEIVER <= r,
    ensures
        ({
            let block = m.vm.field(m.get(r as int), CLOSURE_COMPILED_BLOCK as int);
            let res = m.dispatched_primitive(n, r, argc, dest);
            let closure = m.vm.is_a(m.get(r as int), CLASS_BLOCKCLOSURE);
            &&& !closure ==> res == Ok::<(Machine, Outcome), Fault>(
                (m, Outcome::Fail(FAIL_WRONG_TYPE)),
            )
            &&& closure && crate::vm::mh_argc(m.vm.method_bits(block)) != n - PRIM_BLOCK_VALUE_0
                ==> res == Ok::<(Machine, Outcome), Fault>((m, Outcome::Fail(FAIL_WRONG_ARGC)))
        }),
{
    lemma_block_prims(m, n, r, argc, dest);
    reveal(Machine::prim_block_value);
}

// ---------------------------------------------------------------------------
// Returning out of a block
// ---------------------------------------------------------------------------
/// The frames of a machine that differs in no object and no register.
proof fn lemma_frames_same(
    m: Machine,
    w: Machine,
    young: Seq<usize>,
    old: Seq<usize>,
    offs: Seq<u64>,
    top: int,
)
    requires
        frames_fit(m, young, old, offs, top),
        w.regs == m.regs,
        w.vm.heap == m.vm.heap,
        w.vm.specials == m.vm.specials,
        w.vm.active == m.vm.active,
    ensures
        frames_fit(w, young, old, offs, top),
        forall|off: u64| #[trigger] pending_block(w, off) == pending_block(m, off),
{
    reveal(VmView::field);
    reveal(VmView::class_no);
    assert forall|k: int| 0 <= k < offs.len() implies #[trigger] fits_at(
        w,
        young,
        old,
        offs,
        top,
        k,
    ) by {
        assert(fits_at(m, young, old, offs, top, k));
    }
    assert forall|k: int| 0 <= k < offs.len() - 1 implies #[trigger] called_by(w, offs, k) by {
        assert(called_by(m, offs, k));
    }
}

/// A return out of a block whose home is on the running stack returns the
/// value from the home, past every frame above it, where no ensure block
/// pends on the way.
#[verifier::rlimit(40)]
pub proof fn law_nonlocal_return_leaves_the_home(
    m: Machine,
    young: Seq<usize>,
    old: Seq<usize>,
    offs: Seq<u64>,
    top: int,
    caller: u64,
    f: Fields,
    fresh: bool,
)
    requires
        f.op == OP_NLR,
        frames_fit(m, young, old, offs, top),
        forall|j: int| 0 <= j < offs.len() - 1 ==> !pending_block(m, #[trigger] offs[j]),
        can_return(m, offs.last(), caller, top),
        offs.last() <= m.regs.frame,
        offs.last() <= crate::value::SMALLINT_MAX,
        m.flags_at(offs.last() as int).tagged_int(),
        home(
            m.vm,
            m.get(0),
            m.vm.active,
            offs.last() as i64,
            m.flags_at(offs.last() as int).int_value() >> 32u32,
        ),
        m.vm.active != m.vm.nil(),
        m.vm.field(m.vm.active, PROCESS_STACK as int) != m.vm.nil(),
    ensures
        m.executed(f, fresh) matches Ok(w) && returned_from(
            m,
            w,
            offs.last(),
            caller,
            m.get(f.a as int),
        ),
{
    reveal(Machine::executed);
    reveal(Machine::nonlocal);
    let m1 = m.on(
        VmView {
            ctr: crate::counters::CountersView {
                nlrs: m.vm.ctr.nlrs.wrapping_add(1),
                ..m.vm.ctr
            },
            ..m.vm
        },
    );
    assert(forall|o: Value, i: int| #[trigger] m1.vm.field(o, i) == m.vm.field(o, i)) by {
        reveal(VmView::field);
    }
    lemma_frames_same(m, m1, young, old, offs, top);
    crate::handlers::law_unwind_returns_from_the_target(
        m1,
        young,
        old,
        offs,
        top,
        m.get(f.a as int),
        caller,
    );
}

} // verus!
