//! Instructions keep a machine sound.

use crate::activation::{lemma_saved, lemma_steady_on, lemma_still_known, lemma_still_stacked};
use crate::interp::{fields, Fields};
use crate::machine::{Machine, Regs};
use crate::safepoints::{frame_end, grows_here, leaves_clean, nil_first};
use crate::steps::{
    in_line, law_capture_keeps_sound, law_in_line_keeps_sound, law_plain_return_keeps_sound,
    law_send_keeps_sound, lemma_get_known, lemma_put, lemma_same_objects, resolved, unqueued,
};
use crate::treaty::{
    FMT_PTRS, OP_ADD, OP_AT, OP_ATPUT, OP_BREAK, OP_CAPTURE, OP_CLASSOF, OP_EQNUM, OP_GETBOX,
    OP_GETIVAR, OP_IDEQ, OP_JUMP, OP_JUMPFALSE, OP_JUMPTRUE, OP_LOADSELF, OP_MOVE, OP_NOT, OP_RET,
    OP_RETSELF, OP_SEND, OP_SENDSUPER, OP_SETBOX, OP_SETIVAR, OP_SIZE, SITE_ARGC, SITE_SELECTOR,
    SITE_STATIC_CLASS, SITE_STRIDE, SPECIAL_FALSE, SPECIAL_NIL, SPECIAL_TRUE,
};
use crate::upkeep::{
    framed, is_stack_slot, law_accesses_keep_sound, law_byte_store_keeps_sound,
    law_moves_keep_sound, law_store_keeps_sound, lemma_special_known, readable, stacked, steady,
    tended, Lists,
};
use crate::value::Value;
use crate::vm::VmView;
use vstd::prelude::*;

verus! {

// ---------------------------------------------------------------------------
// Questions to objects
// ---------------------------------------------------------------------------
/// What `at:` answers is known.
proof fn lemma_at_known(
    v: VmView,
    young: Seq<usize>,
    old: Seq<usize>,
    live: Set<int>,
    x: Value,
    y: Value,
)
    requires
        tended(v, young, old, live),
        v.objects(young, old, live).known(x),
        v.at(x, y) is Some,
    ensures
        v.objects(young, old, live).known(v.at(x, y)->0),
{
    reveal(VmView::at);
    let b = v.objects(young, old, live);
    let a = x.addr();
    assert(b.has(a));
    if v.heap.hdr(a).format_field() == FMT_PTRS {
        let i = y.int_value() - 1;
        assert(b.known(v.heap.slot(a, i))) by {
            reveal(tended);
            reveal(VmView::sound);
            reveal(crate::graph::Objects::sound);
        }
    } else {
        crate::value::lemma_tag_bits(v.heap.byte(a, y.int_value() - 1) as i64);
    }
}

/// `at:put:` keeps the machine sound, where it does not change the active
/// process.
pub proof fn law_at_put_keeps_sound(
    v: VmView,
    young: Seq<usize>,
    old: Seq<usize>,
    live: Set<int>,
    x: Value,
    y: Value,
    z: Value,
)
    requires
        tended(v, young, old, live),
        v.objects(young, old, live).known(x),
        v.objects(young, old, live).known(z),
        x.addr() != v.active.addr(),
    ensures
        v.at_put(x, y, z) matches Some(w) ==> tended(w, young, old, live) && steady(
            v,
            w,
            young,
            old,
        ),
{
    reveal(VmView::at_put);
    if v.at_put(x, y, z) is Some {
        let a = x.addr();
        let i = y.int_value() - 1;
        assert(v.objects(young, old, live).has(a));
        if v.heap.hdr(a).format_field() == FMT_PTRS {
            law_store_keeps_sound(v, young, old, live, a, i, z);
        } else {
            law_byte_store_keeps_sound(
                v,
                young,
                old,
                live,
                a,
                i / 8,
                crate::heap::with_byte(
                    v.heap.read(a + 8 + 8 * (i / 8)),
                    i % 8,
                    z.int_value() as u8,
                ),
            );
        }
    }
}

/// The class of a value is known.
proof fn lemma_class_known(
    v: VmView,
    young: Seq<usize>,
    old: Seq<usize>,
    live: Set<int>,
    x: Value,
)
    requires
        tended(v, young, old, live),
        SPECIAL_NIL < v.specials.len(),
    ensures
        v.objects(young, old, live).known(v.class_value(x)),
{
    let c = v.class_no(x) as int;
    lemma_special_known(v, young, old, live, SPECIAL_NIL as int);
    if c < v.class_table.len() {
        reveal(tended);
        reveal(VmView::sound);
        let i = v.specials.len() + c;
        assert(v.roots()[i] == v.class_table[c]);
        assert(v.objects(young, old, live).known(v.roots()[i]));
    }
}

/// A question to an object that is answered without a send.
pub open spec fn answered(m: Machine, f: Fields) -> bool {
    let x = m.get(f.b as int);
    let y = m.get(f.c as int);
    if f.op == OP_AT {
        m.vm.at(x, y) is Some
    } else if f.op == OP_ATPUT {
        m.vm.at_put(x, y, m.get(f.c + 1)) is Some && x.addr() != m.vm.active.addr()
    } else if f.op == OP_SIZE {
        m.vm.size(x) is Some
    } else if f.op == OP_NOT {
        x == m.vm.true_v() || x == m.vm.false_v()
    } else {
        f.op == OP_CLASSOF || f.op == OP_IDEQ
    }
}

/// A question that is answered without a send keeps the machine sound, where
/// what is stored does not change the active process.
#[verifier::rlimit(60)]
pub proof fn law_answer_keeps_sound(
    m: Machine,
    f: Fields,
    young: Seq<usize>,
    old: Seq<usize>,
    live: Set<int>,
)
    requires
        tended(m.vm, young, old, live),
        stacked(m, young, old, live),
        answered(m, f),
    ensures
        m.queried(f) matches Ok(m1) && tended(m1.vm, young, old, live) && stacked(
            m1,
            young,
            old,
            live,
        ) && steady(m.vm, m1.vm, young, old) && m1.regs == m.regs,
{
    reveal(Machine::queried);
    let a = f.a as int;
    let x = m.get(f.b as int);
    let y = m.get(f.c as int);
    let z = m.get(f.c + 1);
    lemma_get_known(m, young, old, live, f.b as int);
    lemma_get_known(m, young, old, live, f.c + 1);
    if f.op == OP_AT {
        lemma_at_known(m.vm, young, old, live, x, y);
        lemma_put(m, young, old, live, a, m.vm.at(x, y)->0);
    } else if f.op == OP_ATPUT {
        law_at_put_keeps_sound(m.vm, young, old, live, x, y, z);
        let m1 = m.on(m.vm.at_put(x, y, z)->0);
        lemma_still_stacked(m, m1, young, old, live);
        lemma_still_known(m.vm, m1.vm, young, old, live, z);
        lemma_put(m1, young, old, live, a, z);
        lemma_steady_on(m.vm, m1.vm, m1.put(a, z).vm, young, old);
    } else if f.op == OP_SIZE {
        let n = m.vm.size(x)->0;
        assert(!n.tagged_ptr()) by {
            reveal(VmView::size);
            crate::value::lemma_tag_bits(m.vm.heap.nslots(x.addr()) as i64);
            crate::value::lemma_tag_bits(m.vm.heap.byte_len(x.addr()) as i64);
        }
        lemma_put(m, young, old, live, a, n);
    } else if f.op == OP_CLASSOF {
        lemma_class_known(m.vm, young, old, live, x);
        lemma_put(m, young, old, live, a, m.vm.class_value(x));
    } else {
        lemma_special_known(m.vm, young, old, live, SPECIAL_TRUE as int);
        lemma_special_known(m.vm, young, old, live, SPECIAL_FALSE as int);
        lemma_put(m, young, old, live, a, m.vm.true_v());
        lemma_put(m, young, old, live, a, m.vm.false_v());
    }
}

// ---------------------------------------------------------------------------
// Polls
// ---------------------------------------------------------------------------
/// A poll while no safepoint is armed keeps the machine sound.
pub proof fn law_poll_keeps_sound(m: Machine, young: Seq<usize>, old: Seq<usize>, live: Set<int>)
    requires
        tended(m.vm, young, old, live),
        stacked(m, young, old, live),
        !m.vm.safepoint.armed,
    ensures
        tended(m.polled().vm, young, old, live),
        stacked(m.polled(), young, old, live),
        steady(m.vm, m.polled().vm, young, old),
        m.polled().regs == m.regs,
{
    reveal(Machine::sampled_at_poll);
    let m0 = m.gap_recorded();
    assert(m0.vm.roots() =~= m.vm.roots());
    lemma_same_objects(m.vm, m0.vm, young, old, live);
    let m1 = m0.sampled_at_poll();
    assert(!m1.vm.safepoint.armed) by {
        reveal(VmView::saved);
        reveal(VmView::with_field);
    }
    if m0.vm.prof.every_poll && m0.vm.prof.active {
        let v1 = m0.vm.saved(m0.regs);
        lemma_saved(m0.vm, young, old, live, m0.regs);
        assert(m1.vm.roots() =~= v1.roots());
        lemma_same_objects(v1, m1.vm, young, old, live);
        lemma_steady_on(m.vm, m0.vm, v1, young, old);
        lemma_steady_on(m.vm, v1, m1.vm, young, old);
    }
    assert(m.polled() == m1) by {
        reveal(Machine::polled);
    }
    lemma_still_stacked(m, m1, young, old, live);
}

/// The machine that a SEND instruction sends from: after its poll, with the
/// send counted towards the snapshot that is asked for.
pub open spec fn sending(m: Machine) -> Machine {
    let m0 = m.polled();
    match m0.vm.snap {
        None => m0,
        Some(_) => m0.on(
            VmView { sends_seen: m0.vm.sends_seen.wrapping_add(1), ..m0.vm },
        ),
    }
}

/// A SEND instruction at which no snapshot is due keeps the machine sound
/// while no safepoint is armed, under the conditions for sends.
#[verifier::rlimit(60)]
#[verifier::spinoff_prover]
pub proof fn law_send_instruction_keeps_sound(
    m: Machine,
    f: Fields,
    young: Seq<usize>,
    old: Seq<usize>,
    live: Set<int>,
    m2: Machine,
    method: Value,
) -> (l: Lists)
    requires
        tended(m.vm, young, old, live),
        stacked(m, young, old, live),
        nil_first(m.vm, old),
        !m.vm.safepoint.armed,
        f.op == OP_SEND || f.op == OP_SENDSUPER,
        m.polled().vm.snap matches Some((n, _)) ==> sending(m).vm.sends_seen != n,
        m.vm.objects(young, old, live).known(m.regs.sites),
        m.regs.sites.addr() != m.vm.active.addr(),
        ({
            let m0 = sending(m);
            let base = f.c * SITE_STRIDE;
            resolved(
                m0,
                f.b,
                m0.vm.field(m.regs.sites, base + SITE_SELECTOR),
                Some(base),
                if f.op == OP_SENDSUPER {
                    Some(m0.vm.field(m.regs.sites, base + SITE_STATIC_CLASS))
                } else {
                    None
                },
            ) == Some((m2, method))
        }),
        m.vm.objects(young, old, live).known(method),
        crate::vm::mh_primitive(m2.vm.method_bits(method)) is None,
        unqueued(m2.vm, method),
        sending(m).vm.max_stack_bytes < 0x2000_0000_0000,
        ({
            let m3 = m2.on(m2.vm.invocation_counted(method));
            frame_end(m3, method, f.b) > m3.vm.slots(m3.regs.stack) ==> grows_here(
                m3,
                frame_end(m3, method, f.b),
            ) && leaves_clean(m3.vm, old, m3.regs.stack)
        }),
    ensures
        m.executed(f, true) matches Ok(m1) ==> {
            &&& tended(m1.vm, l.young, l.old, l.live)
            &&& stacked(m1, l.young, l.old, l.live)
            &&& nil_first(m1.vm, l.old)
        },
{
    reveal(Machine::executed);
    reveal(Machine::send_executed);
    reveal(Machine::site_sent);
    law_poll_keeps_sound(m, young, old, live);
    let p = m.polled();
    let m0 = sending(m);
    assert(m0.vm.roots() =~= p.vm.roots());
    lemma_same_objects(p.vm, m0.vm, young, old, live);
    lemma_steady_on(m.vm, p.vm, m0.vm, young, old);
    lemma_still_stacked(m, m0, young, old, live);
    lemma_still_known(m.vm, m0.vm, young, old, live, m.regs.sites);
    lemma_still_known(m.vm, m0.vm, young, old, live, method);
    let base = f.c * SITE_STRIDE;
    law_send_keeps_sound(
        m0,
        young,
        old,
        live,
        f.a,
        f.b,
        m0.vm.field(m.regs.sites, base + SITE_SELECTOR),
        m0.vm.int_field(m.regs.sites, base + SITE_ARGC) as int,
        Some(base),
        if f.op == OP_SENDSUPER {
            Some(m0.vm.field(m.regs.sites, base + SITE_STATIC_CLASS))
        } else {
            None
        },
        m2,
        method,
    )
}

// ---------------------------------------------------------------------------
// Steps
// ---------------------------------------------------------------------------
/// An access to an instance variable or a box reads no byte object and does
/// not write the active process's stack.
pub open spec fn access_allowed(
    m: Machine,
    f: Fields,
    young: Seq<usize>,
    old: Seq<usize>,
    live: Set<int>,
) -> bool {
    let b = m.vm.objects(young, old, live);
    if f.op == OP_GETIVAR {
        m.get(0).tagged_ptr() ==> readable(b, m.get(0))
    } else if f.op == OP_GETBOX {
        m.get(f.b as int).tagged_ptr() ==> readable(b, m.get(f.b as int))
    } else if f.op == OP_SETIVAR {
        !is_stack_slot(m.vm, m.get(0).addr(), f.a as int)
    } else {
        f.op == OP_SETBOX && !is_stack_slot(m.vm, m.get(f.a as int).addr(), 0)
    }
}

/// An instruction that neither allocates, nor sends, nor unwinds, nor polls
/// an armed safepoint.
pub open spec fn simple(
    m: Machine,
    f: Fields,
    young: Seq<usize>,
    old: Seq<usize>,
    live: Set<int>,
) -> bool {
    if f.op <= OP_BREAK || OP_MOVE <= f.op <= OP_LOADSELF || f.op == OP_CAPTURE {
        true
    } else if OP_GETIVAR <= f.op <= OP_SETBOX {
        access_allowed(m, f, young, old, live)
    } else if f.op == OP_JUMP {
        f.d as i16 >= 0 || !m.vm.safepoint.armed
    } else if f.op == OP_JUMPTRUE || f.op == OP_JUMPFALSE {
        let v = m.get(f.a as int);
        (f.d as i16 >= 0 || !m.vm.safepoint.armed) && (v == m.vm.true_v() || v == m.vm.false_v())
    } else if f.op == OP_RET || f.op == OP_RETSELF {
        m.flags_at(m.regs.frame as int).int_value() & 8 == 0
    } else if OP_ADD <= f.op <= OP_EQNUM {
        in_line(m, f)
    } else {
        answered(m, f)
    }
}

/// Literals that can be read can still be read where the machine is steady.
proof fn lemma_still_readable(
    m: Machine,
    young: Seq<usize>,
    old: Seq<usize>,
    live: Set<int>,
)
    requires
        framed(m, young, old, live),
    ensures
        forall|n: Machine|
            #![trigger framed(n, young, old, live)]
            stacked(n, young, old, live) && steady(m.vm, n.vm, young, old) && n.regs.lits
                == m.regs.lits ==> framed(n, young, old, live),
{
    let b = m.vm.objects(young, old, live);
    let x = m.regs.lits;
    crate::value::lemma_untag_bits(x);
    assert forall|n: Machine|
        #![trigger framed(n, young, old, live)]
        stacked(n, young, old, live) && steady(m.vm, n.vm, young, old) && n.regs.lits
            == m.regs.lits implies framed(n, young, old, live) by {
        lemma_still_known(m.vm, n.vm, young, old, live, x);
        if b.heap.plausible(x.addr()) {
            assert(b.has(x.addr()));
            assert(crate::installs::present(young, old, x.addr()));
        }
    }
}

/// A simple instruction keeps the machine sound, and one that does not return
/// keeps its literals.
#[verifier::rlimit(60)]
#[verifier::spinoff_prover]
pub proof fn law_simple_keeps_sound(
    m: Machine,
    f: Fields,
    fresh: bool,
    young: Seq<usize>,
    old: Seq<usize>,
    live: Set<int>,
)
    requires
        tended(m.vm, young, old, live),
        framed(m, young, old, live),
        simple(m, f, young, old, live),
    ensures
        m.executed(f, fresh) matches Ok(m1) ==> tended(m1.vm, young, old, live) && stacked(
            m1,
            young,
            old,
            live,
        ) && (f.op != OP_RET && f.op != OP_RETSELF ==> framed(m1, young, old, live)),
{
    lemma_still_readable(m, young, old, live);
    if f.op <= OP_BREAK || OP_MOVE <= f.op <= OP_LOADSELF {
        reveal(Machine::executed);
        law_moves_keep_sound(m, f, young, old, live);
        if let Ok(m1) = m.moved(f) {
            lemma_still_stacked(m, m1, young, old, live);
        }
    } else if f.op == OP_CAPTURE {
        reveal(Machine::executed);
        law_capture_keeps_sound(m, f, young, old, live);
    } else if OP_GETIVAR <= f.op <= OP_SETBOX {
        reveal(Machine::executed);
        law_accesses_keep_sound(m, f, young, old, live);
        if let Ok(m1) = m.accessed(f) {
            lemma_still_stacked(m, m1, young, old, live);
        }
    } else if f.op == OP_JUMP || f.op == OP_JUMPTRUE || f.op == OP_JUMPFALSE {
        reveal(Machine::executed);
        reveal(Machine::branched);
        let m1 = m.at_pc(crate::interp::jump_target(m.regs.pc, f.d as i16));
        lemma_still_stacked(m, m1, young, old, live);
        if (f.d as i16) < 0 {
            law_poll_keeps_sound(m1, young, old, live);
        }
    } else if f.op == OP_RET || f.op == OP_RETSELF {
        law_plain_return_keeps_sound(m, f, fresh, young, old, live);
    } else if OP_ADD <= f.op <= OP_EQNUM {
        law_in_line_keeps_sound(m, f, fresh, young, old, live);
    } else {
        reveal(Machine::executed);
        law_answer_keeps_sound(m, f, young, old, live);
    }
}

/// The machine as an instruction finds it: past the instruction, with the
/// instruction counted unless it was counted before.
pub open spec fn past(m: Machine, f: Fields) -> Machine {
    Machine {
        vm: if m.regs.replay {
            m.vm
        } else {
            VmView { ctr: m.vm.ctr.dispatched(f.op), ..m.vm }
        },
        regs: Regs { pc: (m.regs.pc + 1) as u64, replay: false, ..m.regs },
    }
}

/// Fetching and executing a simple instruction keeps the machine sound and
/// the registers on the running stack; after one that does not return, the
/// literals can be read as before.
#[verifier::rlimit(60)]
pub proof fn law_simple_step_keeps_sound(
    m: Machine,
    young: Seq<usize>,
    old: Seq<usize>,
    live: Set<int>,
)
    requires
        tended(m.vm, young, old, live),
        framed(m, young, old, live),
        m.vm.insn(m.regs.code, m.regs.pc as int) matches Some(w) && simple(
            past(m, fields(w)),
            fields(w),
            young,
            old,
            live,
        ),
    ensures
        m.stepped() matches Ok(m1) ==> tended(m1.vm, young, old, live) && stacked(
            m1,
            young,
            old,
            live,
        ) && ({
            let f = fields(m.vm.insn(m.regs.code, m.regs.pc as int)->0);
            f.op != OP_RET && f.op != OP_RETSELF ==> framed(m1, young, old, live)
        }),
{
    reveal(Machine::stepped);
    let f = fields(m.vm.insn(m.regs.code, m.regs.pc as int)->0);
    let m0 = past(m, f);
    assert(m0.vm.roots() =~= m.vm.roots());
    lemma_same_objects(m.vm, m0.vm, young, old, live);
    lemma_still_stacked(m, m0, young, old, live);
    lemma_still_readable(m, young, old, live);
    assert(framed(m0, young, old, live));
    law_simple_keeps_sound(m0, f, !m.regs.replay, young, old, live);
    if let Ok(m1) = m0.executed(f, !m.regs.replay) {
        let m2 = m1.closure_kept(f.op);
        assert(m2.vm == m1.vm && m2.regs.stack == m1.regs.stack && m2.regs.epoch
            == m1.regs.epoch);
    }
}

} // verus!
