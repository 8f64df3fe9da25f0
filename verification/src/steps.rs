//! Instructions that push, pop and allocate keep the machine sound.

use crate::activation::{
    law_return_keeps_sound, lemma_field_put, lemma_steady_on, lemma_still_known,
    lemma_still_stacked, lemma_word_put,
};
use crate::interp::Fields;
use crate::jit::JitView;
use crate::machine::{Machine, Regs};
use crate::safepoints::{
    frame_end, grows_here, law_allocation_here_keeps_sound, law_push_keeps_sound, leaves_clean,
    nil_first,
};
use crate::upkeep::{
    law_field_store_keeps_sound, lemma_field_known, lemma_special_known, stacked, steady, tended,
    Lists,
};
use crate::value::Value;
use crate::vm::VmView;
use crate::treaty::{
    BLOCK_INFO, CLASS_BLOCKCLOSURE, CLASS_BOX, CLOSURE_CAPTURED_BASE, CLOSURE_COMPILED_BLOCK,
    CLOSURE_HOME_OFFSET, CLOSURE_HOME_PROCESS, CLOSURE_HOME_SERIAL, FMT_FIXED, FRAME_METHOD,
    FRAME_RECEIVER, JIT_PATCH_CLASS, METHOD_LITERALS, METHOD_VMSTATE, OP_ADD, OP_EQNUM, OP_IDEQ,
    OP_LT, OP_MKBOX, OP_MOD, OP_RET, OP_RETSELF, SITE_CACHE_CLASS, SITE_CACHE_METHOD, SITE_STRIDE,
    SPECIAL_FALSE, SPECIAL_NIL, SPECIAL_TRUE,
};
use vstd::prelude::*;

verus! {

/// A value that is no byte object.
pub open spec fn no_bytes(v: VmView, x: Value) -> bool {
    v.heap.plausible(x.addr()) ==> !v.heap.hdr(x.addr()).byte_format()
}

/// What is not an object, a reference or the active process says nothing of
/// soundness.
pub(crate) proof fn lemma_same_objects(
    v: VmView,
    w: VmView,
    young: Seq<usize>,
    old: Seq<usize>,
    live: Set<int>,
)
    requires
        tended(v, young, old, live),
        w.heap == v.heap,
        w.specials == v.specials,
        w.active == v.active,
        w.epoch == v.epoch,
        w.roots() == v.roots(),
    ensures
        tended(w, young, old, live),
        steady(v, w, young, old),
{
    reveal(tended);
    reveal(VmView::sound);
    assert(w.objects(young, old, live) == v.objects(young, old, live));
    assert(w.running_stack() == v.running_stack());
}

/// A value read from the current frame is known.
pub(crate) proof fn lemma_get_known(
    m: Machine,
    young: Seq<usize>,
    old: Seq<usize>,
    live: Set<int>,
    k: int,
)
    requires
        tended(m.vm, young, old, live),
        stacked(m, young, old, live),
    ensures
        m.vm.objects(young, old, live).known(m.get(k)),
{
    lemma_field_known(
        m.vm,
        young,
        old,
        live,
        m.regs.stack,
        m.regs.frame + FRAME_RECEIVER + k,
    );
}

/// A known value put in the frame.
pub(crate) proof fn lemma_put(
    m: Machine,
    young: Seq<usize>,
    old: Seq<usize>,
    live: Set<int>,
    k: int,
    x: Value,
)
    requires
        tended(m.vm, young, old, live),
        stacked(m, young, old, live),
        m.vm.objects(young, old, live).known(x),
    ensures
        tended(m.put(k, x).vm, young, old, live),
        stacked(m.put(k, x), young, old, live),
        steady(m.vm, m.put(k, x).vm, young, old),
{
    lemma_word_put(m, young, old, live, m.regs.frame + FRAME_RECEIVER + k, x);
}

/// MKBOX keeps the machine sound, where a box is no large object.
#[verifier::rlimit(60)]
pub proof fn law_box_keeps_sound(
    m: Machine,
    f: Fields,
    young: Seq<usize>,
    old: Seq<usize>,
    live: Set<int>,
) -> (l: Lists)
    requires
        tended(m.vm, young, old, live),
        stacked(m, young, old, live),
        nil_first(m.vm, old),
        f.op == OP_MKBOX,
        m.accessed(f) matches Ok(m1) ==> !m1.vm.heap.large(1),
    ensures
        m.accessed(f) matches Ok(m1) ==> {
            &&& tended(m1.vm, l.young, l.old, l.live)
            &&& stacked(m1, l.young, l.old, l.live)
            &&& nil_first(m1.vm, l.old)
        },
{
    reveal(Machine::accessed);
    let l = law_allocation_here_keeps_sound(m, young, old, live, CLASS_BOX, FMT_FIXED, 1);
    if let Ok((m1, x)) = m.allocated(CLASS_BOX, FMT_FIXED, 1) {
        let y = m1.get(f.b as int);
        lemma_get_known(m1, l.young, l.old, l.live, f.b as int);
        let m2 = m1.on(m1.vm.with_field(x, 0, y));
        let m3 = m2.put(f.a as int, x);
        assert(m3.vm.heap.config == m1.vm.heap.config) by {
            reveal(VmView::with_field);
            reveal(crate::heap::HeapView::write);
        }
        lemma_field_put(m1.vm, l.young, l.old, l.live, x, 0, y);
        lemma_still_stacked(m1, m2, l.young, l.old, l.live);
        lemma_still_known(m1.vm, m2.vm, l.young, l.old, l.live, x);
        lemma_put(m2, l.young, l.old, l.live, f.a as int, x);
        lemma_steady_on(m1.vm, m2.vm, m3.vm, l.young, l.old);
    }
    l
}

/// CAPTURE keeps the machine sound.
pub proof fn law_capture_keeps_sound(
    m: Machine,
    f: Fields,
    young: Seq<usize>,
    old: Seq<usize>,
    live: Set<int>,
)
    requires
        tended(m.vm, young, old, live),
        stacked(m, young, old, live),
    ensures
        m.captured(f) matches Ok(m1) ==> tended(m1.vm, young, old, live) && stacked(
            m1,
            young,
            old,
            live,
        ) && steady(m.vm, m1.vm, young, old) && m1.regs == m.regs,
{
    reveal(Machine::captured);
    if let Some(k) = m.regs.closure_reg {
        lemma_get_known(m, young, old, live, k as int);
        lemma_get_known(m, young, old, live, f.b as int);
        let o = m.get(k as int);
        let i = CLOSURE_CAPTURED_BASE + f.a;
        let x = m.get(f.b as int);
        law_field_store_keeps_sound(m.vm, young, old, live, o, i, x);
        lemma_still_stacked(m, m.on(m.vm.with_stored(o, i, x)), young, old, live);
    }
}

/// A field of a closure that was just made.
proof fn lemma_closure_put(
    m: Machine,
    young: Seq<usize>,
    old: Seq<usize>,
    live: Set<int>,
    c: Value,
    i: int,
    x: Value,
)
    requires
        tended(m.vm, young, old, live),
        stacked(m, young, old, live),
        m.vm.objects(young, old, live).known(c),
        c.addr() != m.vm.active.addr(),
        !crate::graph::listed(old, c.addr()),
        m.vm.objects(young, old, live).known(x),
    ensures
        ({
            let m1 = m.on(m.vm.with_field(c, i, x));
            &&& tended(m1.vm, young, old, live)
            &&& stacked(m1, young, old, live)
            &&& steady(m.vm, m1.vm, young, old)
            &&& m1.vm.heap.config == m.vm.heap.config
        }),
{
    lemma_field_put(m.vm, young, old, live, c, i, x);
    lemma_still_stacked(m, m.on(m.vm.with_field(c, i, x)), young, old, live);
    reveal(VmView::with_field);
    reveal(crate::heap::HeapView::write);
}

/// The home of a new closure filled in.
#[verifier::rlimit(60)]
proof fn lemma_homed(
    m: Machine,
    young: Seq<usize>,
    old: Seq<usize>,
    live: Set<int>,
    c: Value,
    nlr: bool,
)
    requires
        tended(m.vm, young, old, live),
        stacked(m, young, old, live),
        m.vm.objects(young, old, live).known(c),
        c.addr() != m.vm.active.addr(),
        !crate::graph::listed(old, c.addr()),
        no_bytes(m.vm, m.get(0)),
    ensures
        tended(m.homed(c, nlr).vm, young, old, live),
        stacked(m.homed(c, nlr), young, old, live),
        steady(m.vm, m.homed(c, nlr).vm, young, old),
        m.homed(c, nlr).vm.heap.config == m.vm.heap.config,
{
    reveal(Machine::homed);
    let flags = m.flags_at(m.regs.frame as int).int_value();
    let encl = m.get(0);
    lemma_get_known(m, young, old, live, 0);
    lemma_field_known(m.vm, young, old, live, encl, CLOSURE_HOME_PROCESS as int);
    lemma_field_known(m.vm, young, old, live, encl, CLOSURE_HOME_OFFSET as int);
    lemma_field_known(m.vm, young, old, live, encl, CLOSURE_HOME_SERIAL as int);
    lemma_special_known(m.vm, young, old, live, SPECIAL_NIL as int);
    assert(m.vm.objects(young, old, live).known(m.vm.active)) by {
        reveal(tended);
        reveal(VmView::sound);
        assert(m.vm.roots()[m.vm.roots().len() - 1] == m.vm.active);
    }
    crate::value::lemma_tag_bits(0);
    crate::value::lemma_tag_bits(m.regs.frame as i64);
    crate::value::lemma_tag_bits((flags >> 32u32) as i64);
    let (p, o, s) = if !nlr {
        (m.vm.nil(), crate::value::tag(0), crate::value::tag(0))
    } else if flags & 4 != 0 {
        (
            m.vm.field(encl, CLOSURE_HOME_PROCESS as int),
            m.vm.field(encl, CLOSURE_HOME_OFFSET as int),
            m.vm.field(encl, CLOSURE_HOME_SERIAL as int),
        )
    } else {
        (
            m.vm.active,
            crate::value::tag(m.regs.frame as i64),
            crate::value::tag((flags >> 32u32) as i64),
        )
    };
    lemma_closure_put(m, young, old, live, c, CLOSURE_HOME_PROCESS as int, p);
    let m1 = m.on(m.vm.with_field(c, CLOSURE_HOME_PROCESS as int, p));
    lemma_still_known(m.vm, m1.vm, young, old, live, c);
    lemma_still_known(m.vm, m1.vm, young, old, live, o);
    lemma_still_known(m.vm, m1.vm, young, old, live, s);
    lemma_closure_put(m1, young, old, live, c, CLOSURE_HOME_OFFSET as int, o);
    let m2 = m1.on(m1.vm.with_field(c, CLOSURE_HOME_OFFSET as int, o));
    lemma_still_known(m1.vm, m2.vm, young, old, live, c);
    lemma_still_known(m1.vm, m2.vm, young, old, live, s);
    lemma_steady_on(m.vm, m1.vm, m2.vm, young, old);
    lemma_closure_put(m2, young, old, live, c, CLOSURE_HOME_SERIAL as int, s);
    lemma_steady_on(
        m.vm,
        m2.vm,
        m2.vm.with_field(c, CLOSURE_HOME_SERIAL as int, s),
        young,
        old,
    );
}

/// Slots of the closure that MKCLOSURE makes.
pub open spec fn closure_size(m: Machine, f: Fields) -> int {
    let info = m.vm.int_field(m.vm.field(m.regs.lits, f.d as int), BLOCK_INFO as int);
    CLOSURE_CAPTURED_BASE + (info & 0xff) as int
}

/// MKCLOSURE keeps the machine sound, where a closure is no large object, and
/// the literals and the receiver are no byte objects.
#[verifier::rlimit(60)]
pub proof fn law_closure_keeps_sound(
    m: Machine,
    f: Fields,
    young: Seq<usize>,
    old: Seq<usize>,
    live: Set<int>,
) -> (l: Lists)
    requires
        tended(m.vm, young, old, live),
        stacked(m, young, old, live),
        nil_first(m.vm, old),
        m.allocated(CLASS_BLOCKCLOSURE, FMT_FIXED, closure_size(m, f)) matches Ok((m1, c)) ==> {
            &&& !m1.vm.heap.large(closure_size(m, f))
            &&& no_bytes(m1.vm, m1.get(0))
            &&& m1.vm.field(m1.regs.lits, f.d as int).tagged_int() || (m1.regs.lits
                == m1.vm.field(m1.regs.method, METHOD_LITERALS as int) && m1.regs.method
                == m1.vm.field(m1.regs.stack, m1.regs.frame + FRAME_METHOD) && no_bytes(
                m1.vm,
                m1.regs.lits,
            ) && no_bytes(m1.vm, m1.regs.method))
        },
    ensures
        m.closure_made(f) matches Ok(m1) ==> {
            &&& tended(m1.vm, l.young, l.old, l.live)
            &&& stacked(m1, l.young, l.old, l.live)
            &&& nil_first(m1.vm, l.old)
        },
{
    reveal(Machine::closure_made);
    let info = m.vm.int_field(m.vm.field(m.regs.lits, f.d as int), BLOCK_INFO as int);
    let n = closure_size(m, f);
    crate::frames::lemma_retinfo(info);
    let l = law_allocation_here_keeps_sound(
        m,
        young,
        old,
        live,
        CLASS_BLOCKCLOSURE,
        FMT_FIXED,
        n,
    );
    if let Ok((m1, c)) = m.allocated(CLASS_BLOCKCLOSURE, FMT_FIXED, n) {
        let (y, o, v) = (l.young, l.old, l.live);
        let x = m1.vm.field(m1.regs.lits, f.d as int);
        assert(l.of(m1.vm).known(x)) by {
            crate::value::lemma_untag_bits(x);
            if !x.tagged_int() {
                lemma_field_known(
                    m1.vm,
                    y,
                    o,
                    v,
                    m1.regs.stack,
                    m1.regs.frame + FRAME_METHOD,
                );
                lemma_field_known(m1.vm, y, o, v, m1.regs.method, METHOD_LITERALS as int);
                lemma_field_known(m1.vm, y, o, v, m1.regs.lits, f.d as int);
            }
        }
        lemma_closure_put(m1, y, o, v, c, CLOSURE_COMPILED_BLOCK as int, x);
        let m2 = m1.on(m1.vm.with_field(c, CLOSURE_COMPILED_BLOCK as int, x));
        lemma_still_known(m1.vm, m2.vm, y, o, v, c);
        assert(no_bytes(m2.vm, m2.get(0))) by {
            lemma_get_beside(m1, y, o, v, c, CLOSURE_COMPILED_BLOCK as int, x);
        }
        let nlr = (info >> 8u32) & 1 != 0;
        lemma_homed(m2, y, o, v, c, nlr);
        let m3 = m2.homed(c, nlr);
        lemma_still_known(m2.vm, m3.vm, y, o, v, c);
        lemma_put(m3, y, o, v, f.a as int, c);
        let m4 = m3.put(f.a as int, c);
        lemma_steady_on(m1.vm, m2.vm, m3.vm, y, o);
        lemma_steady_on(m1.vm, m3.vm, m4.vm, y, o);
        let m5 = Machine { regs: Regs { closure_reg: Some(f.a), ..m4.regs }, ..m4 };
        lemma_still_stacked(m4, m5, y, o, v);
    }
    l
}

/// The receiver is read as it was when another object changes.
#[verifier::rlimit(60)]
proof fn lemma_get_beside(
    m: Machine,
    young: Seq<usize>,
    old: Seq<usize>,
    live: Set<int>,
    c: Value,
    i: int,
    x: Value,
)
    requires
        tended(m.vm, young, old, live),
        stacked(m, young, old, live),
        m.vm.objects(young, old, live).known(c),
        m.vm.objects(young, old, live).known(x),
        no_bytes(m.vm, c),
        c.addr() != m.regs.stack.addr(),
        steady(m.vm, m.vm.with_field(c, i, x), young, old),
        no_bytes(m.vm, m.get(0)),
    ensures
        no_bytes(m.vm.with_field(c, i, x), m.on(m.vm.with_field(c, i, x)).get(0)),
{
    let b = m.vm.objects(young, old, live);
    let w = m.vm.with_field(c, i, x);
    let k = m.regs.frame + FRAME_RECEIVER;
    let st = m.regs.stack;
    assert(b.sound()) by {
        reveal(tended);
        reveal(VmView::sound);
    }
    lemma_get_known(m, young, old, live, 0);
    crate::value::lemma_untag_bits(st);
    crate::value::lemma_untag_bits(c);
    assert(w.field(st, k) == m.vm.field(st, k)) by {
        reveal(VmView::field);
        reveal(VmView::with_field);
        if 0 <= i && m.vm.heap.shaped(c.addr(), i + 1) {
            assert(b.lists(c.addr()));
            crate::soundness::law_store_keeps_heap_sound(b, c.addr(), i, x);
            if m.vm.heap.plausible(st.addr()) {
                assert(b.lists(st.addr()));
                crate::soundness::lemma_lies(b, st.addr());
                crate::soundness::lemma_lies(
                    crate::soundness::with_heap(b, w.heap),
                    st.addr(),
                );
            }
        }
    }
    let y = m.get(0);
    crate::value::lemma_untag_bits(y);
    if m.vm.heap.plausible(y.addr()) {
        assert(crate::installs::present(young, old, y.addr()));
    }
}

// ---------------------------------------------------------------------------
// In line
// ---------------------------------------------------------------------------
/// Arithmetic and comparisons of integers, identity, and `not` of a boolean
/// are done in line.
pub open spec fn in_line(m: Machine, f: Fields) -> bool {
    let x = m.get(f.b as int);
    let y = m.get(f.c as int);
    let ints = x.tagged_int() && y.tagged_int();
    if OP_ADD <= f.op <= OP_MOD {
        ints && crate::arith::int_op(
            crate::interp::arith_prim(f.op),
            x.int_value(),
            y.int_value(),
        ) is Some
    } else if OP_LT <= f.op <= OP_EQNUM {
        ints
    } else {
        f.op == OP_IDEQ
    }
}

/// What is done in line keeps the machine sound.
#[verifier::rlimit(60)]
pub proof fn law_in_line_keeps_sound(
    m: Machine,
    f: Fields,
    fresh: bool,
    young: Seq<usize>,
    old: Seq<usize>,
    live: Set<int>,
)
    requires
        tended(m.vm, young, old, live),
        stacked(m, young, old, live),
        in_line(m, f),
    ensures
        m.executed(f, fresh) matches Ok(m1) && tended(m1.vm, young, old, live) && stacked(
            m1,
            young,
            old,
            live,
        ) && steady(m.vm, m1.vm, young, old) && m1.regs == m.regs,
{
    reveal(Machine::executed);
    reveal(Machine::computed);
    reveal(Machine::compared);
    reveal(Machine::queried);
    let a = f.a as int;
    lemma_special_known(m.vm, young, old, live, SPECIAL_TRUE as int);
    lemma_special_known(m.vm, young, old, live, SPECIAL_FALSE as int);
    lemma_put(m, young, old, live, a, m.vm.true_v());
    lemma_put(m, young, old, live, a, m.vm.false_v());
    if OP_ADD <= f.op <= OP_MOD {
        let z = crate::arith::int_op(
            crate::interp::arith_prim(f.op),
            m.get(f.b as int).int_value(),
            m.get(f.c as int).int_value(),
        )->0;
        crate::value::lemma_tag_bits(z);
        lemma_put(m, young, old, live, a, crate::value::tag(z));
    }
}

/// A return from a frame without a pending unwind keeps the machine sound.
pub proof fn law_plain_return_keeps_sound(
    m: Machine,
    f: Fields,
    fresh: bool,
    young: Seq<usize>,
    old: Seq<usize>,
    live: Set<int>,
)
    requires
        tended(m.vm, young, old, live),
        stacked(m, young, old, live),
        f.op == OP_RET || f.op == OP_RETSELF,
        m.flags_at(m.regs.frame as int).int_value() & 8 == 0,
    ensures
        m.executed(f, fresh) matches Ok(m1) && tended(m1.vm, young, old, live) && stacked(
            m1,
            young,
            old,
            live,
        ),
{
    reveal(Machine::executed);
    lemma_get_known(m, young, old, live, f.a as int);
    lemma_get_known(m, young, old, live, 0);
    law_return_keeps_sound(m, young, old, live, m.get(f.a as int));
    law_return_keeps_sound(m, young, old, live, m.get(0));
}

// ---------------------------------------------------------------------------
// Sends
// ---------------------------------------------------------------------------
/// The machine that is about to activate the method of a send, and the
/// method.
pub open spec fn resolved(
    m: Machine,
    r: u8,
    selector: Value,
    site: Option<int>,
    above: Option<Value>,
) -> Option<(Machine, Value)> {
    let class = m.vm.class_no(m.get(r as int));
    let m0 = m.send_counted();
    let hit = site matches Some(base) && m0.vm.int_field(m0.regs.sites, base + SITE_CACHE_CLASS)
        == class;
    if hit {
        Some((m0, m0.vm.field(m0.regs.sites, site->0 + SITE_CACHE_METHOD)))
    } else {
        let (m1, found) = m0.miss_counted(site).searched(class, selector, above);
        match found {
            None => None,
            Some(method) => Some((m1.site_filled(site, class, method), method)),
        }
    }
}

/// An activation of a method that is not put in the compiler's queue.
pub open spec fn unqueued(v: VmView, method: Value) -> bool {
    v.jit matches Some(j) ==> {
        let n = v.vmstate(method);
        !j.enabled || n & 0xffff >= 0xffff || (n & 0xffff) + 1 < j.threshold || ((n + 1) as i64)
            & 0x7_0000 != 0
    }
}

/// Counting an activation for the compiler keeps the machine sound.
proof fn lemma_counted(
    v: VmView,
    young: Seq<usize>,
    old: Seq<usize>,
    live: Set<int>,
    method: Value,
)
    requires
        tended(v, young, old, live),
        v.objects(young, old, live).known(method),
        unqueued(v, method),
    ensures
        tended(v.invocation_counted(method), young, old, live),
        steady(v, v.invocation_counted(method), young, old),
        v.invocation_counted(method).max_stack_bytes == v.max_stack_bytes,
{
    reveal(VmView::invocation_counted);
    let x = crate::value::tag((v.vmstate(method) + 1) as i64);
    crate::value::lemma_tag_bits((v.vmstate(method) + 1) as i64);
    lemma_field_put(v, young, old, live, method, METHOD_VMSTATE as int, x);
    assert(v.with_field(method, METHOD_VMSTATE as int, x).max_stack_bytes == v.max_stack_bytes) by {
        reveal(VmView::with_field);
    }
}

/// A send that finds a known method without a primitive leaves the machine
/// sound and the registers on the running stack, under the conditions for
/// growth, where the method is not put in the compiler's queue.
#[verifier::rlimit(60)]
#[verifier::spinoff_prover]
pub proof fn law_send_keeps_sound(
    m: Machine,
    young: Seq<usize>,
    old: Seq<usize>,
    live: Set<int>,
    dest: u8,
    r: u8,
    selector: Value,
    argc: int,
    site: Option<int>,
    above: Option<Value>,
    m2: Machine,
    method: Value,
) -> (l: Lists)
    requires
        tended(m.vm, young, old, live),
        stacked(m, young, old, live),
        nil_first(m.vm, old),
        m.vm.objects(young, old, live).known(m.regs.sites),
        m.regs.sites.addr() != m.vm.active.addr(),
        resolved(m, r, selector, site, above) == Some((m2, method)),
        m.vm.objects(young, old, live).known(method),
        crate::vm::mh_primitive(m2.vm.method_bits(method)) is None,
        unqueued(m2.vm, method),
        m.vm.max_stack_bytes < 0x2000_0000_0000,
        ({
            let m3 = m2.on(m2.vm.invocation_counted(method));
            frame_end(m3, method, r) > m3.vm.slots(m3.regs.stack) ==> grows_here(
                m3,
                frame_end(m3, method, r),
            ) && leaves_clean(m3.vm, old, m3.regs.stack)
        }),
    ensures
        m.sent(dest, r, selector, argc, site, above) matches Ok(m1) ==> {
            &&& tended(m1.vm, l.young, l.old, l.live)
            &&& stacked(m1, l.young, l.old, l.live)
            &&& nil_first(m1.vm, l.old)
        },
{
    reveal(Machine::sent);
    reveal(Machine::activated);
    lemma_resolved(m, young, old, live, r, selector, site, above, m2, method);
    let m3 = m2.on(m2.vm.invocation_counted(method));
    lemma_still_known(m.vm, m2.vm, young, old, live, method);
    lemma_counted(m2.vm, young, old, live, method);
    lemma_steady_on(m.vm, m2.vm, m3.vm, young, old);
    lemma_still_known(m.vm, m3.vm, young, old, live, method);
    lemma_still_stacked(m2, m3, young, old, live);
    law_push_keeps_sound(m3, young, old, live, method, r, dest, argc, None, 0)
}

/// Patching code leaves the compiler's references as they are.
proof fn lemma_site_patched(j: JitView, i: int, site: u8, class: u32, target: u64, k: int)
    ensures
        j.site_patched(i, site, class, target, k).queue == j.queue,
        j.site_patched(i, site, class, target, k).methods == j.methods,
    decreases j.handles[i].patch_sites.len() - k,
{
    let h = j.handles[i];
    if 0 <= k < h.patch_sites.len() {
        let ps = h.patch_sites[k];
        let off = h.code_off + ps.off;
        let j1 = if ps.site != site {
            j
        } else if ps.kind == JIT_PATCH_CLASS {
            j.patched(off, class)
        } else {
            j.patched(off, j.rel(off, target))
        };
        lemma_site_patched(j1, i, site, class, target, k + 1);
    }
}

/// Patching a compiled send site changes no object and no reference.
pub(crate) proof fn lemma_patched_roots(v: VmView, caller: Value, site: u8, class: u32, callee: Value)
    ensures
        v.send_site_patched(caller, site, class, callee).heap == v.heap,
        v.send_site_patched(caller, site, class, callee).specials == v.specials,
        v.send_site_patched(caller, site, class, callee).active == v.active,
        v.send_site_patched(caller, site, class, callee).epoch == v.epoch,
        v.send_site_patched(caller, site, class, callee).max_stack_bytes == v.max_stack_bytes,
        v.send_site_patched(caller, site, class, callee).roots() == v.roots(),
{
    reveal(VmView::send_site_patched);
    if let Some(i) = v.live_handle(caller) {
        reveal(VmView::live_handle);
        lemma_site_patched(v.jit->0, i, site, class, v.callee_entry(callee), 0);
    }
}

/// Resolving a send leaves the machine sound.
#[verifier::rlimit(60)]
#[verifier::spinoff_prover]
proof fn lemma_resolved(
    m: Machine,
    young: Seq<usize>,
    old: Seq<usize>,
    live: Set<int>,
    r: u8,
    selector: Value,
    site: Option<int>,
    above: Option<Value>,
    m2: Machine,
    method: Value,
)
    requires
        tended(m.vm, young, old, live),
        stacked(m, young, old, live),
        m.vm.objects(young, old, live).known(m.regs.sites),
        m.regs.sites.addr() != m.vm.active.addr(),
        resolved(m, r, selector, site, above) == Some((m2, method)),
        m.vm.objects(young, old, live).known(method),
    ensures
        tended(m2.vm, young, old, live),
        stacked(m2, young, old, live),
        steady(m.vm, m2.vm, young, old),
        m2.vm.max_stack_bytes == m.vm.max_stack_bytes,
{
    let class = m.vm.class_no(m.get(r as int));
    let m0 = m.send_counted();
    assert(m0.vm.roots() =~= m.vm.roots());
    lemma_same_objects(m.vm, m0.vm, young, old, live);
    lemma_still_stacked(m, m0, young, old, live);
    let hit = site matches Some(base) && m0.vm.int_field(m0.regs.sites, base + SITE_CACHE_CLASS)
        == class;
    if !hit {
        let m3 = m0.miss_counted(site);
        assert(m3.vm.roots() =~= m0.vm.roots());
        lemma_same_objects(m0.vm, m3.vm, young, old, live);
        lemma_still_stacked(m0, m3, young, old, live);
        lemma_steady_on(m.vm, m0.vm, m3.vm, young, old);
        let (m4, found) = m3.searched(class, selector, above);
        assert(m4.regs == m3.regs && m4.vm.heap == m3.vm.heap && m4.vm.specials == m3.vm.specials
            && m4.vm.active == m3.vm.active && m4.vm.epoch == m3.vm.epoch && m4.vm.roots()
            =~= m3.vm.roots() && m4.vm.max_stack_bytes == m3.vm.max_stack_bytes) by {
            reveal(Machine::searched);
            reveal(VmView::cached_lookup);
        }
        lemma_same_objects(m3.vm, m4.vm, young, old, live);
        lemma_still_stacked(m3, m4, young, old, live);
        lemma_steady_on(m.vm, m3.vm, m4.vm, young, old);
        if let Some(base) = site {
            let s = m4.regs.sites;
            let x = crate::value::tag(class as i64);
            let i = base + SITE_CACHE_CLASS;
            let j = base + SITE_CACHE_METHOD;
            crate::value::lemma_tag_bits(class as i64);
            lemma_still_known(m.vm, m4.vm, young, old, live, s);
            lemma_field_put(m4.vm, young, old, live, s, i, x);
            let v5 = m4.vm.with_field(s, i, x);
            lemma_steady_on(m.vm, m4.vm, v5, young, old);
            lemma_still_known(m.vm, v5, young, old, live, s);
            lemma_still_known(m.vm, v5, young, old, live, method);
            law_field_store_keeps_sound(v5, young, old, live, s, j, method);
            let v6 = v5.with_stored(s, j, method);
            lemma_steady_on(m.vm, v5, v6, young, old);
            assert(v6.max_stack_bytes == m.vm.max_stack_bytes) by {
                reveal(VmView::with_field);
                reveal(VmView::with_stored);
            }
            let n = (base / (SITE_STRIDE as int)) as u8;
            let v7 = v6.send_site_patched(m4.regs.method, n, class, method);
            lemma_patched_roots(v6, m4.regs.method, n, class, method);
            lemma_same_objects(v6, v7, young, old, live);
            lemma_steady_on(m.vm, v6, v7, young, old);
        }
        lemma_still_stacked(m, m2, young, old, live);
    }
}

} // verus!
