//! Frames and processes keep the machine sound: frames pushed and popped,
//! returns, and the switch from one process to another.

use crate::frames::frame_bits;
use crate::graph::{listed, Objects};
use crate::installs::present;
use crate::machine::{Machine, Regs};
use crate::remembered::flagged;
use crate::treaty::{
    FRAME_CALLER, FRAME_FLAGS, FRAME_METHOD, FRAME_RECEIVER, FRAME_RETINFO, PROCESS_FRAME_OFFSET,
    PROCESS_PC, PROCESS_SERIAL_COUNTER, PROCESS_STACK, SCHEDULER_ACTIVE_PROCESS, SPECIAL_FALSE,
    SPECIAL_NIL, SPECIAL_PROCESSOR, SPECIAL_TRUE,
};
use crate::upkeep::{
    is_stack_slot, law_field_store_keeps_sound, law_plain_store_keeps_sound, lemma_noted, lemma_special_known, readable, stacked, steady, tended,
};
use crate::value::Value;
use crate::vm::VmView;
use vstd::prelude::*;

verus! {

// ---------------------------------------------------------------------------
// Stores without the barrier
// ---------------------------------------------------------------------------
/// A known value set in a slot of an object, where the object is the running
/// stack or the value is an integer, keeps the machine sound.
pub(crate) proof fn lemma_field_put(
    v: VmView,
    young: Seq<usize>,
    old: Seq<usize>,
    live: Set<int>,
    o: Value,
    i: int,
    x: Value,
)
    requires
        tended(v, young, old, live),
        v.objects(young, old, live).known(o),
        v.objects(young, old, live).known(x),
        !is_stack_slot(v, o.addr(), i),
        x.tagged_ptr() && v.heap.young(x.addr()) ==> v.running_stack() == Some(o.addr())
            || !listed(old, o.addr()),
    ensures
        tended(v.with_field(o, i, x), young, old, live),
        steady(v, v.with_field(o, i, x), young, old),
{
    reveal(VmView::with_field);
    crate::value::lemma_untag_bits(o);
    if 0 <= i && v.heap.shaped(o.addr(), i + 1) {
        assert(v.objects(young, old, live).lists(o.addr()));
        law_plain_store_keeps_sound(v, young, old, live, o.addr(), i, x);
    }
}

/// A stack that the registers name is still named where the machine is
/// steady.
pub(crate) proof fn lemma_still_stacked(
    m: Machine,
    n: Machine,
    young: Seq<usize>,
    old: Seq<usize>,
    live: Set<int>,
)
    requires
        stacked(m, young, old, live),
        steady(m.vm, n.vm, young, old),
        n.regs.stack == m.regs.stack,
        n.regs.epoch == m.regs.epoch,
    ensures
        stacked(n, young, old, live),
{
    let b = m.vm.objects(young, old, live);
    let a = m.regs.stack.addr();
    crate::value::lemma_untag_bits(m.regs.stack);
    if b.heap.plausible(a) {
        assert(b.has(a));
        assert(present(young, old, a));
    }
}

/// A known value set in a word of the running stack.
pub(crate) proof fn lemma_word_put(
    m: Machine,
    young: Seq<usize>,
    old: Seq<usize>,
    live: Set<int>,
    i: int,
    x: Value,
)
    requires
        tended(m.vm, young, old, live),
        stacked(m, young, old, live),
        m.vm.objects(young, old, live).known(x),
    ensures
        tended(m.vm.with_field(m.regs.stack, i, x), young, old, live),
        steady(m.vm, m.vm.with_field(m.regs.stack, i, x), young, old),
        stacked(m.on(m.vm.with_field(m.regs.stack, i, x)), young, old, live),
{
    lemma_field_put(m.vm, young, old, live, m.regs.stack, i, x);
    lemma_still_stacked(
        m,
        m.on(m.vm.with_field(m.regs.stack, i, x)),
        young,
        old,
        live,
    );
}

/// What is known stays known where the machine is steady.
pub(crate) proof fn lemma_still_known(
    v: VmView,
    w: VmView,
    young: Seq<usize>,
    old: Seq<usize>,
    live: Set<int>,
    x: Value,
)
    requires
        steady(v, w, young, old),
        v.objects(young, old, live).known(x),
    ensures
        w.objects(young, old, live).known(x),
{
}

pub(crate) proof fn lemma_steady_on(u: VmView, v: VmView, w: VmView, young: Seq<usize>, old: Seq<usize>)
    requires
        steady(u, v, young, old),
        steady(v, w, young, old),
    ensures
        steady(u, w, young, old),
{
}

/// Words of the running stack set to nil keep the machine sound.
proof fn lemma_nilled(
    m: Machine,
    young: Seq<usize>,
    old: Seq<usize>,
    live: Set<int>,
    i: int,
    n: int,
)
    requires
        tended(m.vm, young, old, live),
        stacked(m, young, old, live),
    ensures
        tended(m.vm.nilled(m.regs.stack, i, n), young, old, live),
        steady(m.vm, m.vm.nilled(m.regs.stack, i, n), young, old),
        stacked(m.on(m.vm.nilled(m.regs.stack, i, n)), young, old, live),
    decreases n - i,
{
    if i < n {
        let st = m.regs.stack;
        lemma_special_known(m.vm, young, old, live, SPECIAL_NIL as int);
        lemma_word_put(m, young, old, live, i, m.vm.nil());
        let v1 = m.vm.with_field(st, i, m.vm.nil());
        lemma_nilled(m.on(v1), young, old, live, i + 1, n);
        lemma_steady_on(m.vm, v1, v1.nilled(st, i + 1, n), young, old);
    }
}

// ---------------------------------------------------------------------------
// Frames
// ---------------------------------------------------------------------------
/// A popped frame leaves the machine sound, and the registers on the running
/// stack.
pub proof fn law_pop_keeps_sound(
    m: Machine,
    young: Seq<usize>,
    old: Seq<usize>,
    live: Set<int>,
    caller: u64,
)
    requires
        tended(m.vm, young, old, live),
        stacked(m, young, old, live),
    ensures
        tended(m.popped(caller).vm, young, old, live),
        steady(m.vm, m.popped(caller).vm, young, old),
        stacked(m.popped(caller), young, old, live),
{
    reveal(Machine::popped);
    reveal(VmView::reloaded);
    let fs = crate::vm::mh_frame_slots(m.vm.method_bits(m.regs.method));
    lemma_nilled(
        m,
        young,
        old,
        live,
        m.regs.frame as int,
        m.regs.frame + FRAME_RECEIVER + fs,
    );
    lemma_still_stacked(m, m.popped(caller), young, old, live);
}

/// A return of a known value leaves the machine sound, and the registers on
/// the running stack.
pub proof fn law_return_keeps_sound(
    m: Machine,
    young: Seq<usize>,
    old: Seq<usize>,
    live: Set<int>,
    x: Value,
)
    requires
        tended(m.vm, young, old, live),
        stacked(m, young, old, live),
        m.vm.objects(young, old, live).known(x),
    ensures
        tended(m.returned_plain(x).vm, young, old, live),
        steady(m.vm, m.returned_plain(x).vm, young, old),
        stacked(m.returned_plain(x), young, old, live),
{
    reveal(Machine::returned_plain);
    let caller = m.vm.int_field(m.regs.stack, m.regs.frame + FRAME_CALLER);
    if caller == 0 {
        lemma_still_stacked(m, m.returned_plain(x), young, old, live);
    } else {
        let ri = m.vm.int_field(m.regs.stack, m.regs.frame + FRAME_RETINFO);
        let m1 = m.popped(crate::machine::offset_of(caller));
        law_pop_keeps_sound(m, young, old, live, crate::machine::offset_of(caller));
        let m2 = Machine {
            regs: Regs { pc: crate::machine::offset_of((ri >> 8u32) as i64), ..m1.regs },
            ..m1
        };
        lemma_still_stacked(m1, m2, young, old, live);
        lemma_still_known(m.vm, m2.vm, young, old, live, x);
        lemma_word_put(
            m2,
            young,
            old,
            live,
            m2.regs.frame + FRAME_RECEIVER + (ri & 0xff),
            x,
        );
        lemma_steady_on(m.vm, m2.vm, m2.put((ri & 0xff) as int, x).vm, young, old);
    }
}

/// The objects that are no byte objects hold in a slot what they held.
pub open spec fn same_at(v: VmView, w: VmView, young: Seq<usize>, old: Seq<usize>, j: int) -> bool {
    forall|o: int|
        present(young, old, o) && !v.heap.hdr(o).byte_format() && 0 <= j < v.heap.nslots(o)
            ==> #[trigger] w.heap.slot(o, j) == v.heap.slot(o, j)
}

/// An integer set in a slot of the active process other than its stack.
proof fn lemma_process_put(
    v: VmView,
    young: Seq<usize>,
    old: Seq<usize>,
    live: Set<int>,
    i: int,
    n: i64,
)
    requires
        tended(v, young, old, live),
        i != PROCESS_STACK,
    ensures
        tended(v.with_field(v.active, i, crate::value::tag(n)), young, old, live),
        steady(v, v.with_field(v.active, i, crate::value::tag(n)), young, old),
        v.with_field(v.active, i, crate::value::tag(n)).heap.ssb == v.heap.ssb,
        same_at(
            v,
            v.with_field(v.active, i, crate::value::tag(n)),
            young,
            old,
            PROCESS_STACK as int,
        ),
{
    let x = crate::value::tag(n);
    let b = v.objects(young, old, live);
    crate::value::lemma_tag_bits(n);
    crate::value::lemma_untag_bits(v.active);
    assert(b.known(v.active) && b.sound() && (v.heap.plausible(v.active.addr()) ==> !v.heap.hdr(
        v.active.addr(),
    ).byte_format())) by {
        reveal(tended);
        reveal(VmView::sound);
        assert(v.roots()[v.roots().len() - 1] == v.active);
    }
    lemma_field_put(v, young, old, live, v.active, i, x);
    reveal(VmView::with_field);
    if 0 <= i && v.heap.shaped(v.active.addr(), i + 1) {
        assert(b.lists(v.active.addr()));
        crate::soundness::law_store_keeps_heap_sound(b, v.active.addr(), i, x);
        assert forall|o: int|
            present(young, old, o) && !v.heap.hdr(o).byte_format() && 0 <= PROCESS_STACK
                < v.heap.nslots(o) implies #[trigger] v.heap.set_slot(
            v.active.addr(),
            i,
            x,
        ).slot(o, PROCESS_STACK as int) == v.heap.slot(o, PROCESS_STACK as int) by {
            assert(b.lists(o));
        }
    }
}

/// The registers saved to the active process leave the machine sound.
pub(crate) proof fn lemma_saved(
    v: VmView,
    young: Seq<usize>,
    old: Seq<usize>,
    live: Set<int>,
    regs: Regs,
)
    requires
        tended(v, young, old, live),
    ensures
        tended(v.saved(regs), young, old, live),
        steady(v, v.saved(regs), young, old),
        same_at(v, v.saved(regs), young, old, PROCESS_STACK as int),
        v.saved(regs).heap.ssb == v.heap.ssb,
{
    reveal(VmView::saved);
    lemma_process_put(v, young, old, live, PROCESS_FRAME_OFFSET as int, regs.frame as i64);
    let v1 = v.with_field(
        v.active,
        PROCESS_FRAME_OFFSET as int,
        crate::value::tag(regs.frame as i64),
    );
    lemma_process_put(v1, young, old, live, PROCESS_PC as int, regs.pc as i64);
    lemma_steady_on(v, v1, v.saved(regs), young, old);
    assert forall|o: int|
        present(young, old, o) && !v.heap.hdr(o).byte_format() && 0 <= PROCESS_STACK
            < v.heap.nslots(o) implies #[trigger] v.saved(regs).heap.slot(o, PROCESS_STACK as int)
        == v.heap.slot(o, PROCESS_STACK as int) by {
        assert(v1.heap.slot(o, PROCESS_STACK as int) == v.heap.slot(o, PROCESS_STACK as int));
    }
}

/// A frame written on the running stack for a known method leaves the
/// machine sound, and the registers on the running stack.
#[verifier::rlimit(60)]
pub proof fn law_frame_keeps_sound(
    m: Machine,
    young: Seq<usize>,
    old: Seq<usize>,
    live: Set<int>,
    method: Value,
    r: u8,
    dest: u8,
    argc: int,
    fail: Option<i64>,
    extra: u64,
)
    requires
        tended(m.vm, young, old, live),
        stacked(m, young, old, live),
        m.vm.objects(young, old, live).known(method),
    ensures
        tended(m.framed(method, r, dest, argc, fail, extra).vm, young, old, live),
        stacked(m.framed(method, r, dest, argc, fail, extra), young, old, live),
        steady(m.vm, m.framed(method, r, dest, argc, fail, extra).vm, young, old),
{
    reveal(Machine::framed);
    reveal(VmView::reloaded);
    let st = m.regs.stack;
    let off = m.regs.frame + r;
    let bits = m.vm.method_bits(method);
    let fs = crate::vm::mh_frame_slots(bits);
    let serial = crate::frames::next_serial(
        m.vm.int_field(m.vm.active, PROCESS_SERIAL_COUNTER as int) as u32,
    );
    let flags = (frame_bits(bits, extra) as i64) | ((serial as i64) << 32u32);
    let ri = (dest as i64) | ((m.regs.pc as i64) << 8u32);
    crate::value::lemma_tag_bits(m.regs.frame as i64);
    crate::value::lemma_tag_bits(ri);
    crate::value::lemma_tag_bits(flags);
    lemma_process_put(
        m.vm,
        young,
        old,
        live,
        PROCESS_SERIAL_COUNTER as int,
        serial as i64,
    );
    let m1 = m.on(
        m.vm.with_field(
            m.vm.active,
            PROCESS_SERIAL_COUNTER as int,
            crate::value::tag(serial as i64),
        ),
    );
    lemma_still_stacked(m, m1, young, old, live);
    let x2 = crate::value::tag(m.regs.frame as i64);
    lemma_word_put(m1, young, old, live, off + FRAME_CALLER, x2);
    let m2 = m1.on(m1.vm.with_field(st, off + FRAME_CALLER, x2));
    lemma_steady_on(m.vm, m1.vm, m2.vm, young, old);
    let x3 = crate::value::tag(ri);
    lemma_word_put(m2, young, old, live, off + FRAME_RETINFO, x3);
    let m3 = m2.on(m2.vm.with_field(st, off + FRAME_RETINFO, x3));
    lemma_steady_on(m.vm, m2.vm, m3.vm, young, old);
    lemma_still_known(m.vm, m1.vm, young, old, live, method);
    lemma_still_known(m1.vm, m2.vm, young, old, live, method);
    lemma_still_known(m2.vm, m3.vm, young, old, live, method);
    lemma_word_put(m3, young, old, live, off + FRAME_METHOD, method);
    let m4 = m3.on(m3.vm.with_field(st, off + FRAME_METHOD, method));
    lemma_steady_on(m.vm, m3.vm, m4.vm, young, old);
    let x5 = crate::value::tag(flags);
    lemma_word_put(m4, young, old, live, off + FRAME_FLAGS, x5);
    let m5 = m4.on(m4.vm.with_field(st, off + FRAME_FLAGS, x5));
    lemma_steady_on(m.vm, m4.vm, m5.vm, young, old);
    let from = off + FRAME_RECEIVER + 1 + argc;
    let to = off + FRAME_RECEIVER + fs;
    lemma_nilled(m5, young, old, live, from, to);
    let m6 = m5.on(m5.vm.nilled(st, from, to));
    lemma_steady_on(m.vm, m5.vm, m6.vm, young, old);
    let regs = m6.vm.reloaded(Regs { frame: off as u64, ..m.regs });
    let m7 = Machine { vm: m6.vm, regs };
    lemma_still_stacked(m6, m7, young, old, live);
    match fail {
        None => {
            lemma_still_stacked(
                m7,
                m.framed(method, r, dest, argc, fail, extra),
                young,
                old,
                live,
            );
        },
        Some(code) => {
            crate::value::lemma_tag_bits(code);
            let at = regs.frame + FRAME_RECEIVER + (1 + argc);
            lemma_word_put(m7, young, old, live, at, crate::value::tag(code));
            lemma_steady_on(
                m.vm,
                m7.vm,
                m7.vm.with_field(st, at, crate::value::tag(code)),
                young,
                old,
            );
            lemma_still_stacked(
                m7.on(m7.vm.with_field(st, at, crate::value::tag(code))),
                m.framed(method, r, dest, argc, fail, extra),
                young,
                old,
                live,
            );
        },
    }
}

// ---------------------------------------------------------------------------
// Processes
// ---------------------------------------------------------------------------
/// A process that can be made the active one: it has a stack, which is not
/// itself.
pub open spec fn runnable(
    v: VmView,
    young: Seq<usize>,
    old: Seq<usize>,
    live: Set<int>,
    p: Value,
) -> bool {
    let st = v.heap.slot(p.addr(), PROCESS_STACK as int);
    let b = v.objects(young, old, live);
    &&& p.tagged_ptr()
    &&& p != v.nil()
    &&& readable(b, p)
    &&& v.heap.shaped(p.addr(), PROCESS_STACK + 1)
    &&& st.tagged_ptr()
    &&& st != v.nil()
    &&& readable(b, st)
    &&& v.heap.plausible(st.addr())
    &&& st.addr() != p.addr()
}

/// Every old object that points young is in the remembered set, the running
/// stack too.
pub open spec fn all_noted(v: VmView, old: Seq<usize>) -> bool {
    let h = v.heap;
    forall|o: int, i: int|
        listed(old, o) && !h.hdr(o).byte_format() && 0 <= i < h.nslots(o) && (#[trigger] h.slot(
            o,
            i,
        )).tagged_ptr() && h.young(h.slot(o, i).addr()) ==> listed(h.ssb, o)
}

/// Another process made the active one.
#[verifier::rlimit(60)]
proof fn lemma_made_active(
    v: VmView,
    young: Seq<usize>,
    old: Seq<usize>,
    live: Set<int>,
    p: Value,
)
    requires
        tended(v, young, old, live),
        all_noted(v, old),
        runnable(v, young, old, live, p),
    ensures
        tended(VmView { active: p, ..v }, young, old, live),
        (VmView { active: p, ..v }).running_stack() == Some(
            v.heap.slot(p.addr(), PROCESS_STACK as int).addr(),
        ),
{
    let w = VmView { active: p, ..v };
    let last = v.roots().len() - 1;
    assert(w.roots() =~= v.roots().update(last, p));
    reveal(tended);
    reveal(VmView::sound);
    let b = v.objects(young, old, live);
    assert(w.objects(young, old, live) == b);
    assert forall|i: int| 0 <= i < w.roots().len() implies b.known(#[trigger] w.roots()[i]) by {
        if i < last {
            assert(b.known(v.roots()[i]));
        }
    }
}

/// The outgoing stack put in the remembered set.
#[verifier::rlimit(60)]
proof fn lemma_stack_noted(
    v: VmView,
    young: Seq<usize>,
    old: Seq<usize>,
    live: Set<int>,
    stack: Value,
)
    requires
        tended(v, young, old, live),
        v.objects(young, old, live).known(stack),
        v.running_stack() == Some(stack.addr()),
    ensures
        tended(v.stack_remembered(stack), young, old, live),
        steady(v, v.stack_remembered(stack), young, old),
        all_noted(v.stack_remembered(stack), old),
        same_at(v, v.stack_remembered(stack), young, old, PROCESS_STACK as int),
{
    let b = v.objects(young, old, live);
    let a = stack.addr();
    let h = v.heap;
    crate::value::lemma_untag_bits(stack);
    assert(b.sound() && flagged(h, old) && forall|k: int|
        0 <= k < h.ssb.len() ==> listed(old, (#[trigger] h.ssb[k]) as int)) by {
        reveal(tended);
        reveal(VmView::sound);
    }
    let w = v.stack_remembered(stack);
    assert forall|o: int, i: int|
        listed(old, o) && !h.hdr(o).byte_format() && 0 <= i < h.nslots(o) && (#[trigger] h.slot(
            o,
            i,
        )).tagged_ptr() && h.young(h.slot(o, i).addr()) implies listed(h.ssb, o) || o == a by {
        reveal(tended);
        reveal(VmView::sound);
    }
    if h.tenured(a) && h.plausible(a) {
        assert(b.has(a));
        assert(listed(old, a)) by {
            if listed(young, a) {
                crate::soundness::lemma_lies(b, a);
                reveal(Objects::sound);
            }
        }
        lemma_noted(b, a);
        let r = h.remembered(a);
        assert(v.objects(young, old, live).lists(a));
        crate::upkeep::lemma_tended_beside(v, young, old, live, r);
        assert forall|o: int, i: int|
            listed(old, o) && !r.hdr(o).byte_format() && 0 <= i < r.nslots(o) && (#[trigger] r.slot(
                o,
                i,
            )).tagged_ptr() && r.young(r.slot(o, i).addr()) implies listed(r.ssb, o) by {
            assert(b.lists(o));
            assert(r.slot(o, i) == h.slot(o, i));
        }
        assert forall|o: int|
            present(young, old, o) && !h.hdr(o).byte_format() && 0 <= PROCESS_STACK < h.nslots(
                o,
            ) implies #[trigger] r.slot(o, PROCESS_STACK as int) == h.slot(
            o,
            PROCESS_STACK as int,
        ) by {
            assert(b.lists(o));
        }
    } else {
        assert forall|o: int, i: int|
            listed(old, o) && !h.hdr(o).byte_format() && 0 <= i < h.nslots(o) && (#[trigger] h.slot(
                o,
                i,
            )).tagged_ptr() && h.young(h.slot(o, i).addr()) implies listed(h.ssb, o) by {
            if o == a {
                assert(b.lists(o));
                crate::soundness::lemma_lies(b, o);
            }
        }
    }
}

/// A switch to a process that can run leaves the machine sound, and the
/// registers on the stack of that process.
#[verifier::rlimit(60)]
pub proof fn law_switch_keeps_sound(
    m: Machine,
    young: Seq<usize>,
    old: Seq<usize>,
    live: Set<int>,
    target: Value,
)
    requires
        tended(m.vm, young, old, live),
        runnable(m.vm, young, old, live, target),
        m.vm.specials.len() > SPECIAL_PROCESSOR,
        m.vm.specials.len() > SPECIAL_TRUE,
        m.vm.specials.len() > SPECIAL_FALSE,
    ensures
        tended(m.switched(target).vm, young, old, live),
        stacked(m.switched(target), young, old, live),
        m.switched(target).vm.active == target,
{
    reveal(Machine::switched);
    let cur = m.vm.active;
    let v0 = VmView {
        ctr: crate::counters::CountersView {
            process_switches: m.vm.ctr.process_switches.wrapping_add(1),
            ..m.vm.ctr
        },
        ..m.vm
    };
    assert(tended(v0, young, old, live)) by {
        reveal(tended);
        reveal(VmView::sound);
        assert(v0.roots() =~= m.vm.roots());
        assert(v0.objects(young, old, live) == m.vm.objects(young, old, live));
        assert(v0.running_stack() == m.vm.running_stack());
    }
    let stack = v0.field(cur, PROCESS_STACK as int);
    let st = v0.heap.slot(cur.addr(), PROCESS_STACK as int);
    let saves = cur.tagged_ptr() && cur != v0.nil() && stack != v0.nil();
    if cur.tagged_ptr() && cur != v0.nil() {
        assert(stack == st) by {
            reveal(tended);
            reveal(VmView::field);
        }
    }
    let v1 = if saves {
        v0.saved(m.regs).stack_remembered(stack)
    } else {
        v0
    };
    assert(tended(v1, young, old, live) && steady(v0, v1, young, old) && all_noted(v1, old)
        && same_at(v0, v1, young, old, PROCESS_STACK as int)) by {
        lemma_saved(v0, young, old, live, m.regs);
        let s = v0.saved(m.regs);
        if saves && st.tagged_ptr() {
            assert(v0.objects(young, old, live).known(st)) by {
                lemma_active_stack(v0, young, old, live);
            }
            lemma_stack_noted(s, young, old, live, stack);
            lemma_steady_on(v0, s, v1, young, old);
            assert forall|o: int|
                present(young, old, o) && !v0.heap.hdr(o).byte_format() && 0 <= PROCESS_STACK
                    < v0.heap.nslots(o) implies #[trigger] v1.heap.slot(o, PROCESS_STACK as int)
                == v0.heap.slot(o, PROCESS_STACK as int) by {
                assert(s.heap.slot(o, PROCESS_STACK as int) == v0.heap.slot(
                    o,
                    PROCESS_STACK as int,
                ));
            }
        } else if saves {
            crate::value::lemma_untag_bits(stack);
            assert(v1 == s);
            assert(all_noted(s, old)) by {
                reveal(tended);
                reveal(VmView::sound);
            }
        } else {
            assert(all_noted(v0, old)) by {
                reveal(tended);
                reveal(VmView::sound);
            }
        }
    }
    assert(runnable(v1, young, old, live, target)) by {
        let b = v0.objects(young, old, live);
        let a = target.addr();
        assert(present(young, old, a));
        assert(v1.heap.slot(a, PROCESS_STACK as int) == v0.heap.slot(a, PROCESS_STACK as int));
        let t = v0.heap.slot(a, PROCESS_STACK as int);
        assert(present(young, old, t.addr()));
        assert(b.lists(a));
        assert(v1.heap.shaped(a, PROCESS_STACK + 1)) by {
            assert(v1.objects(young, old, live).sound()) by {
                reveal(tended);
                reveal(VmView::sound);
            }
            assert(v1.objects(young, old, live).lists(a));
            crate::soundness::lemma_lies(v1.objects(young, old, live), a);
        }
    }
    lemma_made_active(v1, young, old, live, target);
    let w = VmView { active: target, ..v1 };
    let s = v1.specials[SPECIAL_PROCESSOR as int];
    lemma_special_known(w, young, old, live, SPECIAL_PROCESSOR as int);
    law_field_store_keeps_sound(
        w,
        young,
        old,
        live,
        s,
        SCHEDULER_ACTIVE_PROCESS as int,
        target,
    );
    let v3 = w.with_stored(s, SCHEDULER_ACTIVE_PROCESS as int, target);
    assert(v3 == m.switched(target).vm) by {
        reveal(VmView::with_stored);
    }
    let t = v1.heap.slot(target.addr(), PROCESS_STACK as int);
    assert(present(young, old, t.addr()));
    assert(v3.running_stack() == Some(t.addr()));
    lemma_loaded(v3, young, old, live);
}

/// The stack of the active process, where it has one, is known.
pub(crate) proof fn lemma_active_stack(v: VmView, young: Seq<usize>, old: Seq<usize>, live: Set<int>)
    requires
        tended(v, young, old, live),
    ensures
        v.active.tagged_ptr() && v.active != v.nil() ==> v.objects(young, old, live).known(
            v.heap.slot(v.active.addr(), PROCESS_STACK as int),
        ) && v.heap.shaped(v.active.addr(), PROCESS_STACK + 1) && v.objects(
            young,
            old,
            live,
        ).has(v.active.addr()) && !v.heap.hdr(v.active.addr()).byte_format(),
{
    reveal(tended);
    reveal(VmView::sound);
    reveal(Objects::sound);
    assert(v.roots()[v.roots().len() - 1] == v.active);
}

/// The registers that the active process gives are on its stack.
proof fn lemma_loaded(v: VmView, young: Seq<usize>, old: Seq<usize>, live: Set<int>)
    requires
        tended(v, young, old, live),
        v.running_stack() matches Some(a) && a != v.active.addr() && (v.heap.plausible(a)
            ==> !v.heap.hdr(a).byte_format()),
        v.specials.len() > SPECIAL_TRUE,
        v.specials.len() > SPECIAL_FALSE,
    ensures
        stacked(Machine { vm: v, regs: v.loaded() }, young, old, live),
{
    lemma_active_stack(v, young, old, live);
    reveal(VmView::loaded);
    reveal(VmView::reloaded);
    reveal(VmView::field);
}

} // verus!
