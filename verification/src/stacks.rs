//! Stacks that grow, and processes that are made to end.

use crate::calls::{lemma_nilled_fields, lemma_set_among, return_word, slots_of};
use crate::fields::{
    lemma_field_kept, lemma_field_set, lemma_same_but_more, lemma_same_but_on,
    lemma_same_but_self, same_but,
};
use crate::machine::{offset_of, Machine};
use crate::queues::{laid_out, roomy};
use crate::requests::Outcome;
use crate::scheduling::{
    apart, idle, law_made_runnable_comes_last, level, queue_at, schedule, stands_in_no_other,
};
use crate::treaty::{
    CLASS_PROCESS, FRAME_CALLER, FRAME_FLAGS, FRAME_METHOD, FRAME_RECEIVER, FRAME_RETINFO,
    LIST_HEAD, LIST_TAIL, PRIM_PROCESS_TERMINATE, PROCESS_FRAME_OFFSET, PROCESS_MY_LIST,
    PROCESS_NEXT_LINK, PROCESS_PC, PROCESS_PRIORITY, PROCESS_SERIAL_COUNTER, PROCESS_STACK,
    SPECIAL_TERMINATE_TRAMPOLINE, STACK_FRAMES_BASE,
};
use crate::value::Value;
use crate::vm::{Fault, VmView};
use vstd::prelude::*;

verus! {

/// Slots of one object copied to another.
proof fn lemma_copied_fields(
    v: VmView,
    young: Seq<usize>,
    old: Seq<usize>,
    from: Value,
    to: Value,
    i: int,
    n: int,
)
    requires
        laid_out(v.heap, young, old),
        from != to,
        0 <= i <= n,
        i < n ==> roomy(v.heap, young, old, to.addr(), n - 1) && roomy(
            v.heap,
            young,
            old,
            from.addr(),
            n - 1,
        ),
    ensures
        same_but(v, v.copied(from, to, i, n), young, old, slots_of(to, i, n)),
        forall|j: int|
            i <= j < n ==> #[trigger] v.copied(from, to, i, n).field(to, j) == v.field(from, j),
        v.copied(from, to, i, n) == v.on_heap(v.copied(from, to, i, n).heap),
    decreases n - i,
{
    lemma_same_but_self(v, v, young, old);
    if i < n {
        let x = v.field(from, i);
        let w = v.with_field(to, i, x);
        assert(roomy(v.heap, young, old, to.addr(), i));
        lemma_field_set(v, young, old, to, i, x);
        assert(w == v.on_heap(w.heap)) by {
            reveal(VmView::with_field);
        }
        assert(roomy(w.heap, young, old, to.addr(), n - 1));
        assert(roomy(w.heap, young, old, from.addr(), n - 1));
        lemma_copied_fields(w, young, old, from, to, i + 1, n);
        let r = v.copied(from, to, i, n);
        lemma_same_but_on(v, w, r, young, old, set![(to, i)], slots_of(to, i + 1, n));
        lemma_same_but_more(
            v,
            r,
            young,
            old,
            set![(to, i)].union(slots_of(to, i + 1, n)),
            slots_of(to, i, n),
        );
        assert forall|j: int| i <= j < n implies #[trigger] r.field(to, j) == v.field(from, j) by {
            if j == i {
                assert(roomy(w.heap, young, old, to.addr(), i));
                assert(!slots_of(to, i + 1, n).contains((to, i)));
                assert(r.field(to, i) == w.field(to, i));
            } else {
                assert(w.copied(from, to, i + 1, n).field(to, j) == w.field(from, j));
                assert(roomy(v.heap, young, old, from.addr(), j));
                assert(w.field(from, j) == v.field(from, j));
            }
        }
    } else {
        lemma_same_but_more(v, v, young, old, Set::empty(), slots_of(to, i, n));
    }
}

/// A stack that grows has the slots that are needed and holds what the old
/// one held, slot by slot; the process has it for its stack, and every frame
/// goes on where it was.
#[verifier::rlimit(60)]
pub proof fn law_growth_keeps_the_stack(
    m: Machine,
    needed: int,
    m1: Machine,
    new: Value,
    young: Seq<usize>,
    old: Seq<usize>,
)
    requires
        0 < m.vm.slots(m.regs.stack),
        ({
            let size = crate::frames::doubled(2 * m.vm.slots(m.regs.stack), needed);
            &&& 8 * size <= m.vm.max_stack_bytes
            &&& m.stack_made(size) == Ok::<(Machine, Value), Fault>((m1, new))
            &&& laid_out(m1.vm.heap, young, old)
            &&& roomy(m1.vm.heap, young, old, new.addr(), size - 1)
        }),
        roomy(m1.vm.heap, young, old, m1.regs.stack.addr(), m.vm.slots(m.regs.stack) - 1),
        roomy(m1.vm.heap, young, old, m1.vm.active.addr(), PROCESS_STACK as int),
        new != m1.regs.stack,
        new != m1.vm.active,
    ensures
        m.grown(needed) matches Ok(w) && {
            let st = m1.regs.stack;
            let n = m.vm.slots(m.regs.stack);
            &&& needed <= w.vm.slots(new)
            &&& 2 * n <= w.vm.slots(new)
            &&& w.regs.stack == new
            &&& w.regs.frame == m1.regs.frame
            &&& w.regs.pc == m1.regs.pc
            &&& w.regs.method == m1.regs.method
            &&& w.vm.active == m1.vm.active
            &&& w.vm.field(w.vm.active, PROCESS_STACK as int) == new
            &&& forall|j: int| 0 <= j < n ==> #[trigger] w.vm.field(new, j) == m1.vm.field(st, j)
            &&& forall|k: int|
                0 <= m1.regs.frame + FRAME_RECEIVER + k < n ==> #[trigger] w.get(k) == m1.get(k)
            &&& same_but(
                m1.vm,
                w.vm,
                young,
                old,
                slots_of(new, 0, n).insert((m1.vm.active, PROCESS_STACK as int)),
            )
        },
{
    reveal(Machine::grown);
    let n = m.vm.slots(m.regs.stack);
    let size = crate::frames::doubled(2 * n, needed);
    crate::frames::lemma_doubled(2 * n, needed);
    let v = m1.vm;
    let st = m1.regs.stack;
    let p = v.active;
    assert(roomy(v.heap, young, old, new.addr(), n - 1));
    lemma_copied_fields(v, young, old, st, new, 0, n);
    let a = v.copied(st, new, 0, n);
    assert(roomy(a.heap, young, old, p.addr(), PROCESS_STACK as int));
    lemma_field_kept(a, young, old, p, PROCESS_STACK as int, new);
    let b = a.with_stored(p, PROCESS_STACK as int, new);
    let w = m1.restacked(n, new);
    assert(forall|o: Value, i: int| #[trigger] w.vm.field(o, i) == b.field(o, i)) by {
        reveal(VmView::field);
    }
    let s = set![(p, PROCESS_STACK as int)];
    lemma_same_but_on(v, a, b, young, old, slots_of(new, 0, n), s);
    lemma_same_but_more(
        v,
        b,
        young,
        old,
        slots_of(new, 0, n).union(s),
        slots_of(new, 0, n).insert((p, PROCESS_STACK as int)),
    );
    assert forall|j: int| 0 <= j < n implies #[trigger] w.vm.field(new, j) == v.field(st, j) by {
        assert(roomy(a.heap, young, old, new.addr(), j)) by {
            assert(roomy(v.heap, young, old, new.addr(), j));
        }
        assert(b.field(new, j) == a.field(new, j));
    }
    assert(w.vm.slots(new) >= size) by {
        reveal(VmView::slots);
        assert(roomy(b.heap, young, old, new.addr(), size - 1)) by {
            assert(roomy(a.heap, young, old, new.addr(), size - 1));
        }
        crate::queues::lemma_apart_all(b.heap, young, old, new.addr(), new.addr());
    }
    assert forall|k: int| 0 <= m1.regs.frame + FRAME_RECEIVER + k < n implies #[trigger] w.get(k)
        == m1.get(k) by {
        assert(w.vm.field(new, m1.regs.frame + FRAME_RECEIVER + k) == v.field(
            st,
            m1.regs.frame + FRAME_RECEIVER + k,
        ));
    }
}

// ---------------------------------------------------------------------------
// Termination
// ---------------------------------------------------------------------------
/// A field stored with the write barrier among those that may change.
proof fn lemma_stored_among(
    u: VmView,
    v: VmView,
    young: Seq<usize>,
    old: Seq<usize>,
    s: Set<(Value, int)>,
    o: Value,
    i: int,
    x: Value,
)
    requires
        same_but(u, v, young, old, s),
        s.contains((o, i)),
        roomy(u.heap, young, old, o.addr(), i),
    ensures
        same_but(u, v.with_stored(o, i, x), young, old, s),
        same_but(v, v.with_stored(o, i, x), young, old, set![(o, i)]),
        v.with_stored(o, i, x).field(o, i) == x,
        v.with_stored(o, i, x) == v.on_heap(v.with_stored(o, i, x).heap),
{
    assert(roomy(v.heap, young, old, o.addr(), i));
    lemma_field_kept(v, young, old, o, i, x);
    lemma_same_but_on(u, v, v.with_stored(o, i, x), young, old, s, set![(o, i)]);
    assert(s.union(set![(o, i)]) =~= s);
}

/// The frame at which a process that does not run stands, and the room above
/// it for a call of the trampoline.
pub open spec fn ending_here(
    v: VmView,
    young: Seq<usize>,
    old: Seq<usize>,
    p: Value,
    off: u64,
    pc: u64,
) -> bool {
    let st = v.field(p, PROCESS_STACK as int);
    let tramp = v.specials[SPECIAL_TERMINATE_TRAMPOLINE as int];
    &&& laid_out(v.heap, young, old)
    &&& roomy(v.heap, young, old, p.addr(), PROCESS_SERIAL_COUNTER as int)
    &&& st != v.nil() && st != p && apart(v, st)
    &&& tramp.tagged_ptr() && tramp != v.nil()
    &&& STACK_FRAMES_BASE <= off
    &&& v.field(p, PROCESS_FRAME_OFFSET as int).int_value() == off
    &&& v.field(p, PROCESS_PC as int).int_value() == pc
    &&& pc < 0x20_0000_0000_0000
    &&& 0 < crate::vm::mh_frame_slots(v.method_bits(v.field(st, off + FRAME_METHOD)))
    &&& 0 < crate::vm::mh_frame_slots(v.method_bits(tramp))
    &&& roomy(
        v.heap,
        young,
        old,
        st.addr(),
        above(v, st, off) + FRAME_RECEIVER + crate::vm::mh_frame_slots(v.method_bits(tramp)) - 1,
    )
}

/// Where the frame above the one at an offset begins.
pub open spec fn above(v: VmView, st: Value, off: u64) -> int {
    off + FRAME_RECEIVER + crate::vm::mh_frame_slots(
        v.method_bits(v.field(st, off + FRAME_METHOD)),
    )
}

/// What a process made to end holds: a call of the trampoline above its
/// frame, with the process as receiver, poised at its first instruction. The
/// frames below are as they were.
pub open spec fn made_to_end(
    v: VmView,
    w: VmView,
    p: Value,
    off: u64,
    pc: u64,
) -> bool {
    let st = v.field(p, PROCESS_STACK as int);
    let new = above(v, st, off);
    &&& w.field(p, PROCESS_STACK as int) == st
    &&& w.field(p, PROCESS_FRAME_OFFSET as int) == crate::value::tag(new as i64)
    &&& w.field(p, PROCESS_PC as int) == crate::value::tag(0)
    &&& w.field(st, new + FRAME_CALLER) == crate::value::tag(off as i64)
    &&& w.field(st, new + FRAME_RETINFO) == return_word(0, pc)
    &&& w.field(st, new + FRAME_METHOD) == v.specials[SPECIAL_TERMINATE_TRAMPOLINE as int]
    &&& w.field(st, new + FRAME_RECEIVER) == p
    &&& forall|j: int| 0 <= j < new ==> #[trigger] w.field(st, j) == v.field(st, j)
}

/// The fields that change when a process is made to end.
spec fn ending_fields(v: VmView, p: Value, off: u64) -> Set<(Value, int)> {
    let st = v.field(p, PROCESS_STACK as int);
    let tramp = v.specials[SPECIAL_TERMINATE_TRAMPOLINE as int];
    let new = above(v, st, off);
    slots_of(
        st,
        new,
        new + FRAME_RECEIVER + crate::vm::mh_frame_slots(v.method_bits(tramp)),
    ).insert((p, PROCESS_SERIAL_COUNTER as int)).insert((p, PROCESS_FRAME_OFFSET as int)).insert(
        (p, PROCESS_PC as int),
    )
}

/// The call of the trampoline pushed.
#[verifier::rlimit(100)]
#[verifier::spinoff_prover]
proof fn lemma_trampoline_pushed(
    v: VmView,
    young: Seq<usize>,
    old: Seq<usize>,
    p: Value,
    off: u64,
    pc: u64,
) -> (w: VmView)
    requires
        ending_here(v, young, old, p, off, pc),
    ensures
        v.doomed(p, off, pc as i64) == w.unlisted(p).made_runnable(p),
        made_to_end(v, w, p, off, pc),
        same_but(v, w, young, old, ending_fields(v, p, off)),
        w == v.on_heap(w.heap),
{
    reveal(VmView::doomed);
    let st = v.field(p, PROCESS_STACK as int);
    let tramp = v.specials[SPECIAL_TERMINATE_TRAMPOLINE as int];
    let new = above(v, st, off);
    let fs = crate::vm::mh_frame_slots(v.method_bits(tramp));
    let top = new + FRAME_RECEIVER + fs;
    let s = ending_fields(v, p, off);
    let cur = v.int_field(p, PROCESS_SERIAL_COUNTER as int);
    let serial: i64 = if cur >= 1073741823 {
        1
    } else {
        (cur + 1) as i64
    };
    let sc = PROCESS_SERIAL_COUNTER as int;
    let fo = PROCESS_FRAME_OFFSET as int;
    let pcf = PROCESS_PC as int;
    let x1 = crate::value::tag(off as i64);
    let x2 = crate::value::tag(((pc as i64) << 8u32) as i64);
    let x4 = crate::value::tag((serial << 32u32) as i64);
    crate::calls::lemma_frame_words(0, pc as i64, 0, 0);
    assert forall|j: int| 0 <= j < top implies roomy(v.heap, young, old, st.addr(), j) by {}
    assert(roomy(v.heap, young, old, p.addr(), fo) && roomy(v.heap, young, old, p.addr(), pcf)
        && roomy(v.heap, young, old, p.addr(), 0));
    lemma_same_but_self(v, v, young, old);
    lemma_same_but_more(v, v, young, old, Set::empty(), s);
    lemma_set_among(v, v, young, old, s, p, sc, crate::value::tag(serial));
    let a = v.with_field(p, sc, crate::value::tag(serial));
    lemma_stored_among(v, a, young, old, s, st, new + FRAME_CALLER, x1);
    let b = a.with_stored(st, new + FRAME_CALLER, x1);
    lemma_stored_among(v, b, young, old, s, st, new + FRAME_RETINFO, x2);
    let c = b.with_stored(st, new + FRAME_RETINFO, x2);
    lemma_stored_among(v, c, young, old, s, st, new + FRAME_METHOD, tramp);
    let d = c.with_stored(st, new + FRAME_METHOD, tramp);
    lemma_stored_among(v, d, young, old, s, st, new + FRAME_FLAGS, x4);
    let e = d.with_stored(st, new + FRAME_FLAGS, x4);
    lemma_stored_among(v, e, young, old, s, st, new + FRAME_RECEIVER, p);
    let f = e.with_stored(st, new + FRAME_RECEIVER, p);
    assert(roomy(f.heap, young, old, st.addr(), top - 1));
    lemma_nilled_fields(f, young, old, st, new + FRAME_RECEIVER + 1, top);
    let g = f.nilled(st, new + FRAME_RECEIVER + 1, top);
    let t = slots_of(st, new + FRAME_RECEIVER + 1, top);
    lemma_same_but_on(v, f, g, young, old, s, t);
    assert(s.union(t) =~= s);
    lemma_set_among(v, g, young, old, s, p, fo, crate::value::tag(new as i64));
    let h = g.with_field(p, fo, crate::value::tag(new as i64));
    lemma_set_among(v, h, young, old, s, p, pcf, crate::value::tag(0));
    let w = h.with_field(p, pcf, crate::value::tag(0));
    assert forall|j: int| 0 <= j < new + FRAME_RECEIVER + 1 implies #[trigger] w.field(st, j)
        == f.field(st, j) by {
        assert(roomy(v.heap, young, old, st.addr(), j));
        assert(roomy(f.heap, young, old, st.addr(), j));
        assert(roomy(g.heap, young, old, st.addr(), j));
        assert(roomy(h.heap, young, old, st.addr(), j));
        assert(w.field(st, j) == h.field(st, j));
        assert(h.field(st, j) == g.field(st, j));
        assert(!t.contains((st, j)));
        assert(g.field(st, j) == f.field(st, j));
    }
    lemma_frame_stays(v, b, c, d, e, f, young, old, st, p, new, top);
    assert forall|j: int| 0 <= j < new implies #[trigger] w.field(st, j) == v.field(st, j) by {
        assert(roomy(v.heap, young, old, st.addr(), j));
        assert(!s.contains((st, j)));
    }
    assert(w.field(p, 0) == v.field(p, 0)) by {
        assert(!s.contains((p, 0int)));
    }
    assert(roomy(h.heap, young, old, p.addr(), fo));
    assert(w.field(p, fo) == h.field(p, fo));
    assert(v.doomed(p, off, pc as i64) == w.unlisted(p).made_runnable(p));
    w
}

/// The words written into a frame one after another all stay.
proof fn lemma_frame_stays(
    v: VmView,
    b: VmView,
    c: VmView,
    d: VmView,
    e: VmView,
    f: VmView,
    young: Seq<usize>,
    old: Seq<usize>,
    st: Value,
    p: Value,
    new: int,
    top: int,
)
    requires
        0 <= new,
        new + FRAME_RECEIVER < top,
        roomy(b.heap, young, old, st.addr(), top - 1),
        same_but(b, c, young, old, set![(st, new + FRAME_RETINFO)]),
        same_but(c, d, young, old, set![(st, new + FRAME_METHOD)]),
        same_but(d, e, young, old, set![(st, new + FRAME_FLAGS)]),
        same_but(e, f, young, old, set![(st, new + FRAME_RECEIVER)]),
    ensures
        f.field(st, new + FRAME_CALLER) == b.field(st, new + FRAME_CALLER),
        f.field(st, new + FRAME_RETINFO) == c.field(st, new + FRAME_RETINFO),
        f.field(st, new + FRAME_METHOD) == d.field(st, new + FRAME_METHOD),
{
    assert(roomy(c.heap, young, old, st.addr(), top - 1));
    assert(roomy(d.heap, young, old, st.addr(), top - 1));
    assert(roomy(e.heap, young, old, st.addr(), top - 1));
    assert(c.field(st, new + FRAME_CALLER) == b.field(st, new + FRAME_CALLER));
    assert(d.field(st, new + FRAME_CALLER) == c.field(st, new + FRAME_CALLER));
    assert(d.field(st, new + FRAME_RETINFO) == c.field(st, new + FRAME_RETINFO));
    assert(e.field(st, new + FRAME_CALLER) == d.field(st, new + FRAME_CALLER));
    assert(e.field(st, new + FRAME_RETINFO) == d.field(st, new + FRAME_RETINFO));
    assert(e.field(st, new + FRAME_METHOD) == d.field(st, new + FRAME_METHOD));
}

/// Another process that is terminated, and stands in no queue, is made to end
/// and comes last among the ready ones of its priority; the running process
/// goes on.
#[verifier::rlimit(60)]
#[verifier::spinoff_prover]
pub proof fn law_terminate_makes_it_end(
    m: Machine,
    young: Seq<usize>,
    old: Seq<usize>,
    qs: Seq<Seq<Value>>,
    r: u8,
    argc: int,
    dest: u8,
    off: u64,
    pc: u64,
)
    requires
        m.vm.is_a(m.get(r as int), CLASS_PROCESS),
        m.get(r as int) != m.vm.active,
        ending_here(m.vm, young, old, m.get(r as int), off, pc),
        schedule(m.vm, young, old, qs),
        idle(m.vm, young, old, m.get(r as int)),
        m.vm.field(m.get(r as int), PROCESS_MY_LIST as int) == m.vm.nil(),
        stands_in_no_other(qs, -1, m.get(r as int)),
        stands_in_no_other(qs, -1, m.vm.field(m.get(r as int), PROCESS_STACK as int)),
    ensures
        m.dispatched_primitive(PRIM_PROCESS_TERMINATE, r, argc, dest) matches Ok((w, o)) && {
            let p = m.get(r as int);
            let l = level(m.vm, p);
            &&& o == Outcome::Value(p)
            &&& w.regs == m.regs
            &&& w.vm.active == m.vm.active
            &&& made_to_end(m.vm, w.vm, p, off, pc)
            &&& schedule(w.vm, young, old, qs.update(l, qs[l].push(p)))
        },
{
    reveal(Machine::dispatched_primitive);
    reveal(Machine::object_primitive);
    reveal(Machine::control_primitive);
    reveal(Machine::prim_terminate);
    reveal(VmView::unlisted);
    let v = m.vm;
    let p = m.get(r as int);
    let st = v.field(p, PROCESS_STACK as int);
    let u = lemma_trampoline_pushed(v, young, old, p, off, pc);
    let s = ending_fields(v, p, off);
    let new = above(v, st, off);
    let l = level(v, p);
    assert forall|a: Value, j: int| #[trigger] s.contains((a, j)) implies !crate::turns::schedules(
        v,
        a,
        j,
    ) by {
        if a == p {
            assert(apart(v, p));
        } else {
            assert(apart(v, st));
            assert(j >= new);
        }
    }
    crate::turns::lemma_schedule_same(v, u, young, old, s, qs);
    assert(roomy(v.heap, young, old, p.addr(), PROCESS_PRIORITY as int));
    assert(u.field(p, PROCESS_PRIORITY as int) == v.field(p, PROCESS_PRIORITY as int));
    assert(u.field(p, PROCESS_MY_LIST as int) == v.field(p, PROCESS_MY_LIST as int));
    assert(u.unlisted(p) == u);
    assert(idle(u, young, old, p)) by {
        assert(apart(u, p));
        assert(roomy(u.heap, young, old, p.addr(), PROCESS_NEXT_LINK as int));
        assert(roomy(u.heap, young, old, p.addr(), PROCESS_MY_LIST as int));
    }
    assert(level(u, p) == l);
    law_made_runnable_comes_last(u, young, old, qs, p);
    let w = u.made_runnable(p);
    let q = queue_at(u, l);
    assert(q != p && q != st) by {
        assert(apart(u, p));
        assert(apart(v, st) && apart(u, st));
    }
    assert(!qs[l].push(p).contains(st)) by {
        assert(!qs[l].contains(st));
        if qs[l].push(p).contains(st) {
            let k = choose|k: int| 0 <= k < qs[l].push(p).len() && qs[l].push(p)[k] == st;
            assert(k == qs[l].len() || qs[l][k] == st);
        }
    }
    lemma_end_kept(v, u, w, young, old, q, qs[l].push(p), p, off, pc);
    assert(v.slots(st) >= new + FRAME_RECEIVER + crate::vm::mh_frame_slots(
        v.method_bits(v.specials[SPECIAL_TERMINATE_TRAMPOLINE as int]),
    )) by {
        reveal(VmView::slots);
        crate::queues::lemma_apart_all(v.heap, young, old, st.addr(), st.addr());
    }
    assert(offset_of(v.int_field(p, PROCESS_FRAME_OFFSET as int)) == off);
}

/// Links alone do not touch what a process made to end holds.
#[verifier::rlimit(40)]
proof fn lemma_end_kept(
    v: VmView,
    u: VmView,
    w: VmView,
    young: Seq<usize>,
    old: Seq<usize>,
    q: Value,
    items: Seq<Value>,
    p: Value,
    off: u64,
    pc: u64,
)
    requires
        ending_here(v, young, old, p, off, pc),
        same_but(v, u, young, old, ending_fields(v, p, off)),
        made_to_end(v, u, p, off, pc),
        crate::scheduling::only_links(
            u,
            w,
            young,
            old,
            q,
            LIST_HEAD as int,
            LIST_TAIL as int,
            items,
        ),
        q != p,
        q != v.field(p, PROCESS_STACK as int),
        !items.contains(v.field(p, PROCESS_STACK as int)),
    ensures
        made_to_end(v, w, p, off, pc),
{
    let st = v.field(p, PROCESS_STACK as int);
    let new = above(v, st, off);
    let top = new + FRAME_RECEIVER + crate::vm::mh_frame_slots(
        v.method_bits(v.specials[SPECIAL_TERMINATE_TRAMPOLINE as int]),
    );
    assert forall|j: int| 0 <= j < top implies #[trigger] w.field(st, j) == u.field(st, j) by {
        assert(roomy(v.heap, young, old, st.addr(), j));
        assert(roomy(u.heap, young, old, st.addr(), j));
    }
    assert forall|j: int| 0 <= j < 3 implies #[trigger] w.field(p, j) == u.field(p, j) by {
        assert(roomy(v.heap, young, old, p.addr(), j));
        assert(roomy(u.heap, young, old, p.addr(), j));
    }
}

} // verus!
