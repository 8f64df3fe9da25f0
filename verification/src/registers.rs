//! The slots of the running frame: what the instructions that move data do
//! to them, and where jumps lead.

use crate::fields::{lemma_field_kept, lemma_field_set, same_but};
use crate::interp::Fields;
use crate::machine::Machine;
use crate::queues::{laid_out, roomy};
use crate::treaty::{
    FRAME_RECEIVER, OP_GETBOX, OP_GETIVAR, OP_IDEQ, OP_JUMP, OP_JUMPFALSE, OP_JUMPTRUE,
    OP_LOADFALSE, OP_LOADINT, OP_LOADK, OP_LOADNIL, OP_LOADSELF, OP_LOADTRUE, OP_MOVE, OP_NOP,
    OP_NOT, OP_SETBOX, OP_SETIVAR, SPECIAL_FALSE, SPECIAL_NIL, SPECIAL_TRUE,
};
use crate::value::Value;
use crate::vm::Fault;
use vstd::prelude::*;

verus! {

/// The running frame has a slot with a number.
pub open spec fn slot_here(m: Machine, young: Seq<usize>, old: Seq<usize>, k: int) -> bool {
    &&& laid_out(m.vm.heap, young, old)
    &&& roomy(m.vm.heap, young, old, m.regs.stack.addr(), m.regs.frame + FRAME_RECEIVER + k)
}

/// A slot of the running frame gets a value, and nothing else changes.
pub open spec fn slot_loaded(
    m: Machine,
    res: Result<Machine, Fault>,
    young: Seq<usize>,
    old: Seq<usize>,
    a: int,
    x: Value,
) -> bool {
    res matches Ok(w) && {
        &&& w.regs == m.regs
        &&& w.vm == m.vm.on_heap(w.vm.heap)
        &&& w.get(a) == x
        &&& same_but(
            m.vm,
            w.vm,
            young,
            old,
            set![(m.regs.stack, m.regs.frame + FRAME_RECEIVER + a)],
        )
    }
}

pub(crate) proof fn lemma_put(m: Machine, young: Seq<usize>, old: Seq<usize>, a: int, x: Value)
    requires
        slot_here(m, young, old, a),
    ensures
        slot_loaded(m, Ok(m.put(a, x)), young, old, a, x),
{
    lemma_field_set(m.vm, young, old, m.regs.stack, m.regs.frame + FRAME_RECEIVER + a, x);
    let w = m.put(a, x);
    assert(w.vm == m.vm.on_heap(w.vm.heap)) by {
        reveal(crate::vm::VmView::with_field);
    }
}

/// A move copies a slot, and a load puts a literal, a small number, one of
/// the constants or the receiver in a slot.
pub proof fn law_moves_and_loads(
    m: Machine,
    young: Seq<usize>,
    old: Seq<usize>,
    f: Fields,
    fresh: bool,
)
    requires
        slot_here(m, young, old, f.a as int),
    ensures
        ({
            let a = f.a as int;
            let res = m.executed(f, fresh);
            let sp = m.vm.specials;
            &&& f.op == OP_MOVE ==> slot_loaded(m, res, young, old, a, m.get(f.b as int))
            &&& f.op == OP_LOADK ==> slot_loaded(
                m,
                res,
                young,
                old,
                a,
                m.vm.field(m.regs.lits, f.d as int),
            )
            &&& f.op == OP_LOADINT ==> (res matches Ok(w) && w.get(a).tagged_int() && w.get(
                a,
            ).int_value() == f.d as i16 && slot_loaded(m, res, young, old, a, w.get(a)))
            &&& f.op == OP_LOADNIL ==> slot_loaded(
                m,
                res,
                young,
                old,
                a,
                sp[SPECIAL_NIL as int],
            )
            &&& f.op == OP_LOADTRUE ==> slot_loaded(
                m,
                res,
                young,
                old,
                a,
                sp[SPECIAL_TRUE as int],
            )
            &&& f.op == OP_LOADFALSE ==> slot_loaded(
                m,
                res,
                young,
                old,
                a,
                sp[SPECIAL_FALSE as int],
            )
            &&& f.op == OP_LOADSELF ==> slot_loaded(m, res, young, old, a, m.get(0))
            &&& f.op == OP_NOP ==> res == Ok::<Machine, Fault>(m)
        }),
{
    reveal(Machine::executed);
    reveal(Machine::moved);
    let a = f.a as int;
    let n = crate::value::tag(f.d as i16 as i64);
    crate::value::lemma_tag_bits(f.d as i16 as i64);
    lemma_put(m, young, old, a, m.get(f.b as int));
    lemma_put(m, young, old, a, m.vm.field(m.regs.lits, f.d as int));
    lemma_put(m, young, old, a, n);
    lemma_put(m, young, old, a, m.vm.nil());
    lemma_put(m, young, old, a, m.vm.true_v());
    lemma_put(m, young, old, a, m.vm.false_v());
    lemma_put(m, young, old, a, m.get(0));
}

/// An instance variable of the receiver, or the contents of a box, read into
/// a slot.
pub proof fn law_reads_of_objects(
    m: Machine,
    young: Seq<usize>,
    old: Seq<usize>,
    f: Fields,
    fresh: bool,
)
    requires
        slot_here(m, young, old, f.a as int),
    ensures
        f.op == OP_GETIVAR && m.get(0).tagged_ptr() ==> slot_loaded(
            m,
            m.executed(f, fresh),
            young,
            old,
            f.a as int,
            m.vm.field(m.get(0), f.b as int),
        ),
        f.op == OP_GETBOX && m.get(f.b as int).tagged_ptr() ==> slot_loaded(
            m,
            m.executed(f, fresh),
            young,
            old,
            f.a as int,
            m.vm.field(m.get(f.b as int), 0),
        ),
        f.op == OP_GETIVAR && !m.get(0).tagged_ptr() ==> m.executed(f, fresh) is Err,
        f.op == OP_GETBOX && !m.get(f.b as int).tagged_ptr() ==> m.executed(f, fresh) is Err,
{
    reveal(Machine::executed);
    reveal(Machine::accessed);
    lemma_put(m, young, old, f.a as int, m.vm.field(m.get(0), f.b as int));
    lemma_put(m, young, old, f.a as int, m.vm.field(m.get(f.b as int), 0));
}

/// An instance variable of the receiver set from a slot, and nothing else.
pub proof fn law_instance_variable_set(
    m: Machine,
    young: Seq<usize>,
    old: Seq<usize>,
    f: Fields,
    fresh: bool,
)
    requires
        f.op == OP_SETIVAR,
        laid_out(m.vm.heap, young, old),
        m.get(0).tagged_ptr(),
        roomy(m.vm.heap, young, old, m.get(0).addr(), f.a as int),
    ensures
        m.executed(f, fresh) matches Ok(w) && w.regs == m.regs && w.vm.field(m.get(0), f.a as int)
            == m.get(f.b as int) && same_but(
            m.vm,
            w.vm,
            young,
            old,
            set![(m.get(0), f.a as int)],
        ),
{
    reveal(Machine::executed);
    reveal(Machine::accessed);
    lemma_field_kept(m.vm, young, old, m.get(0), f.a as int, m.get(f.b as int));
}

/// The contents of a box set from a slot, and nothing else.
pub proof fn law_box_set(m: Machine, young: Seq<usize>, old: Seq<usize>, f: Fields, fresh: bool)
    requires
        f.op == OP_SETBOX,
        laid_out(m.vm.heap, young, old),
        m.get(f.a as int).tagged_ptr(),
        roomy(m.vm.heap, young, old, m.get(f.a as int).addr(), 0),
    ensures
        m.executed(f, fresh) matches Ok(w) && w.regs == m.regs && w.vm.field(m.get(f.a as int), 0)
            == m.get(f.b as int) && same_but(
            m.vm,
            w.vm,
            young,
            old,
            set![(m.get(f.a as int), 0int)],
        ),
{
    reveal(Machine::executed);
    reveal(Machine::accessed);
    lemma_field_kept(m.vm, young, old, m.get(f.a as int), 0, m.get(f.b as int));
}

/// A machine that goes on elsewhere in the same code, with nothing else
/// changed.
pub open spec fn goes_on_at(m: Machine, w: Machine, pc: int) -> bool {
    &&& w.vm == m.vm
    &&& w.regs.pc == pc
    &&& w == m.at_pc(w.regs.pc)
}

/// A jump forward goes on that many instructions further; a conditional one
/// does so on the boolean that it names, and goes on with the next
/// instruction on the other.
pub proof fn law_jumps_forward(m: Machine, f: Fields, fresh: bool)
    requires
        0 <= f.d as i16,
        m.regs.pc + (f.d as i16) <= crate::machine::OFFSET_LIMIT,
        m.vm.specials[SPECIAL_TRUE as int] != m.vm.specials[SPECIAL_FALSE as int],
    ensures
        ({
            let x = m.get(f.a as int);
            let res = m.executed(f, fresh);
            let yes = x == m.vm.specials[SPECIAL_TRUE as int];
            let no = x == m.vm.specials[SPECIAL_FALSE as int];
            let far = m.regs.pc + (f.d as i16);
            &&& f.op == OP_JUMP ==> (res matches Ok(w) && goes_on_at(m, w, far))
            &&& f.op == OP_JUMPTRUE && yes ==> (res matches Ok(w) && goes_on_at(m, w, far))
            &&& f.op == OP_JUMPTRUE && no ==> (res matches Ok(w) && w == m)
            &&& f.op == OP_JUMPFALSE && no ==> (res matches Ok(w) && goes_on_at(m, w, far))
            &&& f.op == OP_JUMPFALSE && yes ==> (res matches Ok(w) && w == m)
        }),
{
    reveal(Machine::executed);
    reveal(Machine::branched);
}

/// A jump backward goes on that many instructions before, after a poll at
/// that place.
pub proof fn law_jumps_backward(m: Machine, f: Fields, fresh: bool)
    requires
        (f.d as i16) < 0,
        0 <= m.regs.pc + (f.d as i16) <= crate::machine::OFFSET_LIMIT,
    ensures
        f.op == OP_JUMP ==> (m.executed(f, fresh) matches Ok(w) && w == m.at_pc(
            (m.regs.pc + (f.d as i16)) as u64,
        ).polled()),
{
    reveal(Machine::executed);
}

/// Identity is told by the value alone, and `not` turns one boolean into the
/// other.
pub proof fn law_identity_and_negation(
    m: Machine,
    young: Seq<usize>,
    old: Seq<usize>,
    f: Fields,
    fresh: bool,
)
    requires
        slot_here(m, young, old, f.a as int),
        m.vm.specials[SPECIAL_TRUE as int] != m.vm.specials[SPECIAL_FALSE as int],
    ensures
        ({
            let a = f.a as int;
            let x = m.get(f.b as int);
            let y = m.get(f.c as int);
            let res = m.executed(f, fresh);
            let t = m.vm.specials[SPECIAL_TRUE as int];
            let n = m.vm.specials[SPECIAL_FALSE as int];
            &&& f.op == OP_IDEQ && x == y ==> slot_loaded(m, res, young, old, a, t)
            &&& f.op == OP_IDEQ && x != y ==> slot_loaded(m, res, young, old, a, n)
            &&& f.op == OP_NOT && x == t ==> slot_loaded(m, res, young, old, a, n)
            &&& f.op == OP_NOT && x == n ==> slot_loaded(m, res, young, old, a, t)
        }),
{
    reveal(Machine::executed);
    reveal(Machine::queried);
    lemma_put(m, young, old, f.a as int, m.vm.true_v());
    lemma_put(m, young, old, f.a as int, m.vm.false_v());
}

} // verus!
