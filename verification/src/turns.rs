//! Processes take turns: what suspending, resuming, yielding, waiting and
//! signaling do to the queues and to who runs.

use crate::fields::{
    lemma_field_kept, lemma_field_set, lemma_same_but_on, lemma_same_but_self, lemma_stack_noted,
    same_but,
};
use crate::graph::listed;
use crate::machine::{offset_of, Machine};
use crate::queues::{
    laid_out, law_dequeued_first, law_enqueued_last, queue_of, queueable, roomy,
};
use crate::requests::Outcome;
use crate::scheduling::{
    end_slots, ends_of, idle, is_top, law_made_runnable_comes_last,
    law_next_is_first_of_the_highest, law_unlisted_is_in_no_queue,
    law_unlisted_leaves_its_queue, lemma_dequeued_only, lemma_ends, lemma_enqueued_only,
    lemma_level_alone, lemma_level_changed, lemma_levels_kept, lemma_member,
    apart, lemma_stands_alone, level, level_holds, only_links, outside, queue_at, schedule,
    stands_in_no_other,
};
use crate::treaty::{
    CLASS_PROCESS, CLASS_SEMAPHORE, FRAME_METHOD, LIST_HEAD, LIST_TAIL, NUM_PRIORITIES,
    PRIM_PROCESS_RESUME, PRIM_PROCESS_SUSPEND, PRIM_SEMAPHORE_SIGNAL, PRIM_SEMAPHORE_WAIT,
    PRIM_YIELD, PROCESS_FRAME_OFFSET, PROCESS_MY_LIST, PROCESS_NEXT_LINK, PROCESS_PC,
    PROCESS_PRIORITY, PROCESS_SERIAL_COUNTER, PROCESS_STACK, SCHEDULER_ACTIVE_PROCESS,
    SCHEDULER_QUEUES, SEMAPHORE_EXCESS_SIGNALS, SEMAPHORE_QUEUE_HEAD, SEMAPHORE_QUEUE_TAIL,
    SPECIAL_PROCESSOR,
};
use crate::value::Value;
use crate::vm::VmView;
use vstd::prelude::*;

verus! {

// ---------------------------------------------------------------------------
// What leaves the queues alone
// ---------------------------------------------------------------------------
/// A queue none of whose fields change.
pub(crate) proof fn lemma_queue_same(
    v: VmView,
    w: VmView,
    young: Seq<usize>,
    old: Seq<usize>,
    changed: Set<(Value, int)>,
    list: Value,
    hs: int,
    ts: int,
    items: Seq<Value>,
)
    requires
        queue_of(v, young, old, list, hs, ts, items),
        same_but(v, w, young, old, changed),
        !changed.contains((list, hs)),
        !changed.contains((list, ts)),
        forall|a: Value| !#[trigger] changed.contains((a, PROCESS_NEXT_LINK as int)),
        forall|a: Value| !#[trigger] changed.contains((a, PROCESS_MY_LIST as int)),
    ensures
        queue_of(w, young, old, list, hs, ts, items),
{
    reveal(queue_of);
    let nx = PROCESS_NEXT_LINK as int;
    let ml = PROCESS_MY_LIST as int;
    assert(w.nil() == v.nil());
    assert(roomy(w.heap, young, old, list.addr(), hs) && roomy(w.heap, young, old, list.addr(), ts));
    assert(w.field(list, hs) == v.field(list, hs));
    assert(w.field(list, ts) == v.field(list, ts));
    assert forall|k: int| 0 <= k < items.len() implies queueable(
        w,
        young,
        old,
        list,
        #[trigger] items[k],
    ) && w.field(items[k], ml) == list && w.field(items[k], nx) == (if k + 1 < items.len() {
        items[k + 1]
    } else {
        w.nil()
    }) by {
        let q = items[k];
        assert(queueable(v, young, old, list, q));
        assert(roomy(w.heap, young, old, q.addr(), nx) && roomy(w.heap, young, old, q.addr(), ml));
        assert(!changed.contains((q, ml)) && !changed.contains((q, nx)));
        assert(w.field(q, ml) == v.field(q, ml));
        assert(w.field(q, nx) == v.field(q, nx));
    }
}

/// A field that says who is in which run queue.
pub open spec fn schedules(v: VmView, a: Value, j: int) -> bool {
    ||| a == v.specials[SPECIAL_PROCESSOR as int] && j == SCHEDULER_QUEUES
    ||| a == v.run_queues()
    ||| exists|k: int|
        0 <= k < NUM_PRIORITIES && a == #[trigger] queue_at(v, k) && (j == LIST_HEAD || j
            == LIST_TAIL)
    ||| j == PROCESS_NEXT_LINK
    ||| j == PROCESS_MY_LIST
}

/// The run queues stay where no such field changes.
#[verifier::rlimit(40)]
pub(crate) proof fn lemma_schedule_same(
    v: VmView,
    w: VmView,
    young: Seq<usize>,
    old: Seq<usize>,
    changed: Set<(Value, int)>,
    qs: Seq<Seq<Value>>,
)
    requires
        schedule(v, young, old, qs),
        same_but(v, w, young, old, changed),
        forall|a: Value, j: int| #[trigger] changed.contains((a, j)) ==> !schedules(v, a, j),
    ensures
        schedule(w, young, old, qs),
        w.run_queues() == v.run_queues(),
        forall|k: int| 0 <= k < NUM_PRIORITIES ==> #[trigger] queue_at(w, k) == queue_at(v, k),
        forall|x: Value| #[trigger] outside(w, x) == outside(v, x),
        forall|x: Value| #[trigger] apart(w, x) == apart(v, x),
{
    let s = v.specials[SPECIAL_PROCESSOR as int];
    let a = v.run_queues();
    let h = LIST_HEAD as int;
    let t = LIST_TAIL as int;
    assert(schedules(v, s, SCHEDULER_QUEUES as int));
    assert(w.field(s, SCHEDULER_QUEUES as int) == v.field(s, SCHEDULER_QUEUES as int));
    assert forall|k: int| 0 <= k < NUM_PRIORITIES implies #[trigger] queue_at(w, k) == queue_at(
        v,
        k,
    ) by {
        assert(roomy(v.heap, young, old, a.addr(), k));
        assert(schedules(v, a, k));
        assert(w.field(a, k) == v.field(a, k));
    }
    assert forall|x: Value| #[trigger] apart(w, x) == apart(v, x) by {
        assert(outside(w, x) == outside(v, x));
        assert forall|k: int| 0 <= k < NUM_PRIORITIES implies queue_at(w, k) == #[trigger] queue_at(
            v,
            k,
        ) by {
            assert(queue_at(w, k) == queue_at(v, k));
        }
    }
    assert forall|k: int| 0 <= k < NUM_PRIORITIES implies #[trigger] level_holds(
        w,
        young,
        old,
        k,
        qs[k],
    ) by {
        assert(level_holds(v, young, old, k, qs[k]));
        let q = queue_at(v, k);
        assert(schedules(v, q, h) && schedules(v, q, t));
        lemma_queue_same(v, w, young, old, changed, q, h, t, qs[k]);
        assert forall|i: int| 0 <= i < qs[k].len() implies apart(w, #[trigger] qs[k][i]) by {
            assert(apart(v, qs[k][i]));
        }
    }
    assert forall|j: int, k: int| 0 <= j < k < NUM_PRIORITIES implies #[trigger] queue_at(w, j)
        != #[trigger] queue_at(w, k) by {
        assert(queue_at(v, j) != queue_at(v, k));
    }
}

// ---------------------------------------------------------------------------
// Switching
// ---------------------------------------------------------------------------
/// A process with a stack that can be switched from and to.
pub open spec fn process_here(v: VmView, young: Seq<usize>, old: Seq<usize>, p: Value) -> bool {
    let s = v.field(p, PROCESS_STACK as int);
    &&& p.tagged_ptr()
    &&& p != v.nil()
    &&& roomy(v.heap, young, old, p.addr(), PROCESS_SERIAL_COUNTER as int)
    &&& s != v.nil()
    &&& s != p
    &&& listed(young, s.addr()) || listed(old, s.addr())
}

/// The fields that a switch away from a process changes.
pub open spec fn switch_fields(v: VmView) -> Set<(Value, int)> {
    set![
        (v.active, PROCESS_FRAME_OFFSET as int),
        (v.active, PROCESS_PC as int),
        (v.specials[SPECIAL_PROCESSOR as int], SCHEDULER_ACTIVE_PROCESS as int),
    ]
}

/// Saving the registers changes the two fields that hold them.
pub(crate) proof fn lemma_saved_fields(m: Machine, young: Seq<usize>, old: Seq<usize>)
    requires
        laid_out(m.vm.heap, young, old),
        roomy(m.vm.heap, young, old, m.vm.active.addr(), PROCESS_SERIAL_COUNTER as int),
    ensures
        same_but(
            m.vm,
            m.vm.saved(m.regs),
            young,
            old,
            set![(m.vm.active, PROCESS_FRAME_OFFSET as int), (m.vm.active, PROCESS_PC as int)],
        ),
        m.vm.saved(m.regs) == m.vm.on_heap(m.vm.saved(m.regs).heap),
        m.vm.saved(m.regs).field(m.vm.active, PROCESS_FRAME_OFFSET as int) == crate::value::tag(
            m.regs.frame as i64,
        ),
        m.vm.saved(m.regs).field(m.vm.active, PROCESS_PC as int) == crate::value::tag(
            m.regs.pc as i64,
        ),
{
    reveal(VmView::saved);
    let v = m.vm;
    let p = v.active;
    let fo = PROCESS_FRAME_OFFSET as int;
    let pc = PROCESS_PC as int;
    let x = crate::value::tag(m.regs.frame as i64);
    let y = crate::value::tag(m.regs.pc as i64);
    assert(roomy(v.heap, young, old, p.addr(), fo) && roomy(v.heap, young, old, p.addr(), pc));
    lemma_field_set(v, young, old, p, fo, x);
    let a = v.with_field(p, fo, x);
    assert(roomy(a.heap, young, old, p.addr(), pc) && roomy(a.heap, young, old, p.addr(), fo));
    lemma_field_set(a, young, old, p, pc, y);
    let b = a.with_field(p, pc, y);
    lemma_same_but_on(v, a, b, young, old, set![(p, fo)], set![(p, pc)]);
    assert(set![(p, fo)].union(set![(p, pc)]) =~= set![(p, fo), (p, pc)]);
    assert(b.field(p, fo) == a.field(p, fo));
}

/// A switch saves where the running process is, makes the other one the
/// active process, and goes on where that one was; no other field changes.
#[verifier::rlimit(60)]
#[verifier::spinoff_prover]
pub proof fn law_switch_goes_on_there(
    m: Machine,
    young: Seq<usize>,
    old: Seq<usize>,
    target: Value,
)
    requires
        laid_out(m.vm.heap, young, old),
        process_here(m.vm, young, old, m.vm.active),
        process_here(m.vm, young, old, target),
        target != m.vm.active,
        m.vm.specials[SPECIAL_PROCESSOR as int] != target,
        m.vm.specials[SPECIAL_PROCESSOR as int] != m.vm.active,
        roomy(
            m.vm.heap,
            young,
            old,
            m.vm.specials[SPECIAL_PROCESSOR as int].addr(),
            SCHEDULER_ACTIVE_PROCESS as int,
        ),
    ensures
        ({
            let w = m.switched(target);
            let p = m.vm.active;
            &&& w.vm.active == target
            &&& same_but(m.vm, w.vm, young, old, switch_fields(m.vm))
            &&& w.vm.field(p, PROCESS_FRAME_OFFSET as int) == crate::value::tag(
                m.regs.frame as i64,
            )
            &&& w.vm.field(p, PROCESS_PC as int) == crate::value::tag(m.regs.pc as i64)
            &&& w.regs.stack == m.vm.field(target, PROCESS_STACK as int)
            &&& w.regs.frame == offset_of(
                m.vm.field(target, PROCESS_FRAME_OFFSET as int).int_value(),
            )
            &&& w.regs.pc == offset_of(m.vm.field(target, PROCESS_PC as int).int_value())
            &&& w.regs.method == w.vm.field(w.regs.stack, w.regs.frame + FRAME_METHOD)
            &&& w.regs.epoch == w.vm.epoch
        }),
{
    reveal(Machine::switched);
    reveal(VmView::loaded);
    reveal(VmView::reloaded);
    let v = m.vm;
    let p = v.active;
    let s = v.specials[SPECIAL_PROCESSOR as int];
    let v0 = VmView {
        ctr: crate::counters::CountersView {
            process_switches: v.ctr.process_switches.wrapping_add(1),
            ..v.ctr
        },
        ..v
    };
    lemma_same_but_self(v, v0, young, old);
    assert(forall|a: Value, j: int| #[trigger] v0.field(a, j) == v.field(a, j)) by {
        reveal(VmView::field);
    }
    let fo = PROCESS_FRAME_OFFSET as int;
    let pc = PROCESS_PC as int;
    let sv = set![(p, fo), (p, pc)];
    lemma_saved_fields(m.on(v0), young, old);
    let a = v0.saved(m.regs);
    let stack = v.field(p, PROCESS_STACK as int);
    lemma_stack_noted(a, young, old, stack);
    let b = a.stack_remembered(stack);
    assert(roomy(a.heap, young, old, s.addr(), SCHEDULER_ACTIVE_PROCESS as int));
    assert(roomy(b.heap, young, old, s.addr(), SCHEDULER_ACTIVE_PROCESS as int));
    lemma_field_kept(b, young, old, s, SCHEDULER_ACTIVE_PROCESS as int, target);
    let c = b.with_stored(s, SCHEDULER_ACTIVE_PROCESS as int, target);
    let one = set![(s, SCHEDULER_ACTIVE_PROCESS as int)];
    let w = m.switched(target);
    assert(w.vm == VmView { active: target, ..c });
    assert(forall|x: Value, j: int| #[trigger] w.vm.field(x, j) == c.field(x, j)) by {
        reveal(VmView::field);
    }
    lemma_same_but_on(v, v0, a, young, old, Set::empty(), sv);
    lemma_same_but_on(v, a, b, young, old, Set::<(Value, int)>::empty().union(sv), Set::empty());
    lemma_same_but_on(
        v,
        b,
        c,
        young,
        old,
        Set::<(Value, int)>::empty().union(sv).union(Set::empty()),
        one,
    );
    let all = Set::<(Value, int)>::empty().union(sv).union(Set::empty()).union(one);
    assert(all =~= switch_fields(v));
    assert(same_but(v, w.vm, young, old, switch_fields(v)));
    assert(roomy(v.heap, young, old, p.addr(), fo) && roomy(v.heap, young, old, p.addr(), pc));
    assert(roomy(a.heap, young, old, p.addr(), fo) && roomy(a.heap, young, old, p.addr(), pc));
    assert(roomy(b.heap, young, old, p.addr(), fo) && roomy(b.heap, young, old, p.addr(), pc));
    assert(b.field(p, fo) == a.field(p, fo) && b.field(p, pc) == a.field(p, pc));
    assert(c.field(p, fo) == b.field(p, fo) && c.field(p, pc) == b.field(p, pc));
    assert(roomy(v.heap, young, old, target.addr(), fo) && roomy(
        v.heap,
        young,
        old,
        target.addr(),
        pc,
    ) && roomy(v.heap, young, old, target.addr(), PROCESS_STACK as int));
    assert(w.vm.field(target, fo) == v.field(target, fo));
    assert(w.vm.field(target, pc) == v.field(target, pc));
    assert(w.vm.field(target, PROCESS_STACK as int) == v.field(target, PROCESS_STACK as int));
}

/// A process that is switched away from and back to goes on where it was.
#[verifier::rlimit(40)]
pub proof fn law_switch_and_back(m: Machine, young: Seq<usize>, old: Seq<usize>, target: Value)
    requires
        laid_out(m.vm.heap, young, old),
        process_here(m.vm, young, old, m.vm.active),
        process_here(m.vm, young, old, target),
        target != m.vm.active,
        m.vm.specials[SPECIAL_PROCESSOR as int] != target,
        m.vm.specials[SPECIAL_PROCESSOR as int] != m.vm.active,
        roomy(
            m.vm.heap,
            young,
            old,
            m.vm.specials[SPECIAL_PROCESSOR as int].addr(),
            SCHEDULER_ACTIVE_PROCESS as int,
        ),
        m.regs.frame <= crate::value::SMALLINT_MAX,
        m.regs.pc <= crate::value::SMALLINT_MAX,
        m.regs.stack == m.vm.field(m.vm.active, PROCESS_STACK as int),
    ensures
        m.switched(target).switched(m.vm.active).vm.active == m.vm.active,
        m.switched(target).switched(m.vm.active).regs.stack == m.regs.stack,
        m.switched(target).switched(m.vm.active).regs.frame == m.regs.frame,
        m.switched(target).switched(m.vm.active).regs.pc == m.regs.pc,
{
    let p = m.vm.active;
    law_switch_goes_on_there(m, young, old, target);
    let w = m.switched(target);
    let st = PROCESS_STACK as int;
    assert(roomy(m.vm.heap, young, old, p.addr(), st) && roomy(
        m.vm.heap,
        young,
        old,
        target.addr(),
        st,
    ));
    assert(w.vm.field(p, st) == m.vm.field(p, st));
    assert(w.vm.field(target, st) == m.vm.field(target, st));
    assert(process_here(w.vm, young, old, p)) by {
        assert(roomy(w.vm.heap, young, old, p.addr(), PROCESS_SERIAL_COUNTER as int));
    }
    assert(process_here(w.vm, young, old, target)) by {
        assert(roomy(w.vm.heap, young, old, target.addr(), PROCESS_SERIAL_COUNTER as int));
    }
    assert(roomy(
        w.vm.heap,
        young,
        old,
        w.vm.specials[SPECIAL_PROCESSOR as int].addr(),
        SCHEDULER_ACTIVE_PROCESS as int,
    ));
    law_switch_goes_on_there(w, young, old, p);
    crate::value::lemma_tag_bits(m.regs.frame as i64);
    crate::value::lemma_tag_bits(m.regs.pc as i64);
}

/// A switch leaves the run queues as they are.
#[verifier::rlimit(40)]
pub proof fn law_switch_keeps_queues(
    m: Machine,
    young: Seq<usize>,
    old: Seq<usize>,
    qs: Seq<Seq<Value>>,
    target: Value,
)
    requires
        schedule(m.vm, young, old, qs),
        process_here(m.vm, young, old, m.vm.active),
        process_here(m.vm, young, old, target),
        target != m.vm.active,
        apart(m.vm, m.vm.active),
        outside(m.vm, target),
        m.vm.specials[SPECIAL_PROCESSOR as int] != m.vm.run_queues(),
        roomy(
            m.vm.heap,
            young,
            old,
            m.vm.specials[SPECIAL_PROCESSOR as int].addr(),
            SCHEDULER_ACTIVE_PROCESS as int,
        ),
    ensures
        schedule(m.switched(target).vm, young, old, qs),
{
    assert(level_holds(m.vm, young, old, 0, qs[0]));
    lemma_ends(
        m.vm,
        young,
        old,
        queue_at(m.vm, 0),
        LIST_HEAD as int,
        LIST_TAIL as int,
        qs[0],
    );
    law_switch_goes_on_there(m, young, old, target);
    let s = m.vm.specials[SPECIAL_PROCESSOR as int];
    let changed = switch_fields(m.vm);
    assert forall|a: Value, j: int| #[trigger] changed.contains((a, j)) implies !schedules(
        m.vm,
        a,
        j,
    ) by {
        if a == s {
            assert forall|k: int| 0 <= k < NUM_PRIORITIES implies #[trigger] queue_at(m.vm, k)
                != s by {
                assert(level_holds(m.vm, young, old, k, qs[k]));
            }
        }
    }
    lemma_schedule_same(m.vm, m.switched(target).vm, young, old, changed, qs);
}

// ---------------------------------------------------------------------------
// Suspending
// ---------------------------------------------------------------------------
/// A process other than the running one that is suspended leaves the queue it
/// stands in, a run queue or that of a semaphore: it stands in none, the
/// others keep their order, and nothing else changes.
#[verifier::rlimit(40)]
pub proof fn law_suspend_takes_out(
    m: Machine,
    young: Seq<usize>,
    old: Seq<usize>,
    r: u8,
    argc: int,
    dest: u8,
    hs: int,
    ts: int,
    items: Seq<Value>,
    i: int,
)
    requires
        m.vm.is_a(m.get(r as int), CLASS_PROCESS),
        m.get(r as int) != m.vm.active,
        0 <= i < items.len(),
        items[i] == m.get(r as int),
        ({
            let list = m.vm.field(m.get(r as int), PROCESS_MY_LIST as int);
            &&& list != m.vm.nil()
            &&& ends_of(m.vm.heap, list, hs, ts)
            &&& queue_of(m.vm, young, old, list, hs, ts, items)
        }),
    ensures
        m.dispatched_primitive(PRIM_PROCESS_SUSPEND, r, argc, dest) matches Ok((m1, o)) && {
            let p = m.get(r as int);
            let list = m.vm.field(p, PROCESS_MY_LIST as int);
            &&& o == Outcome::Value(p)
            &&& m1.regs == m.regs
            &&& m1.vm.active == m.vm.active
            &&& m1.vm.field(p, PROCESS_MY_LIST as int) == m.vm.nil()
            &&& m1.vm.field(p, PROCESS_NEXT_LINK as int) == m.vm.nil()
            &&& queue_of(m1.vm, young, old, list, hs, ts, items.remove(i))
            &&& !items.remove(i).contains(p)
            &&& only_links(m.vm, m1.vm, young, old, list, hs, ts, items)
        },
{
    let p = m.get(r as int);
    let list = m.vm.field(p, PROCESS_MY_LIST as int);
    lemma_suspend(m, r, argc, dest);
    law_unlisted_leaves_its_queue(m.vm, young, old, list, hs, ts, items, i);
    law_unlisted_is_in_no_queue(
        m.vm.unlisted(p),
        young,
        old,
        list,
        hs,
        ts,
        items.remove(i),
        p,
    );
}

proof fn lemma_suspend(m: Machine, r: u8, argc: int, dest: u8)
    ensures
        m.dispatched_primitive(PRIM_PROCESS_SUSPEND, r, argc, dest) == m.prim_suspend(r as int),
        m.vm.is_a(m.get(r as int), CLASS_PROCESS) && m.get(r as int) != m.vm.active
            ==> m.prim_suspend(r as int) == m.on(m.vm.unlisted(m.get(r as int))).gives(
            m.get(r as int),
        ),
{
    reveal(Machine::dispatched_primitive);
    reveal(Machine::object_primitive);
    reveal(Machine::control_primitive);
    reveal(Machine::prim_suspend);
}

/// A suspended process is not the one that runs next, nor any after it: it
/// is gone from the run queues, where all others stay in order.
#[verifier::rlimit(40)]
pub proof fn law_suspended_does_not_run(
    m: Machine,
    young: Seq<usize>,
    old: Seq<usize>,
    qs: Seq<Seq<Value>>,
    r: u8,
    argc: int,
    dest: u8,
    c: int,
    i: int,
)
    requires
        schedule(m.vm, young, old, qs),
        0 <= c < NUM_PRIORITIES,
        0 <= i < qs[c].len(),
        qs[c][i] == m.get(r as int),
        m.vm.is_a(m.get(r as int), CLASS_PROCESS),
        m.get(r as int) != m.vm.active,
        m.vm.heap.hdr(queue_at(m.vm, c).addr()).class_field() as u32 != CLASS_SEMAPHORE,
    ensures
        m.dispatched_primitive(PRIM_PROCESS_SUSPEND, r, argc, dest) matches Ok((m1, o)) && {
            let rs = qs.update(c, qs[c].remove(i));
            &&& schedule(m1.vm, young, old, rs)
            &&& forall|k: int| 0 <= k < rs.len() ==> !(#[trigger] rs[k]).contains(m.get(r as int))
            &&& m1.vm.next_runnable().1 != Some(m.get(r as int))
        },
{
    let h = LIST_HEAD as int;
    let t = LIST_TAIL as int;
    let p = m.get(r as int);
    let items = qs[c];
    let list = queue_at(m.vm, c);
    assert(level_holds(m.vm, young, old, c, items));
    lemma_member(m.vm, young, old, list, h, t, items, i);
    law_suspend_takes_out(m, young, old, r, argc, dest, h, t, items, i);
    lemma_suspend(m, r, argc, dest);
    let w = m.vm.unlisted(p);
    let rest = items.remove(i);
    assert forall|n: int| 0 <= n < items.len() implies apart(m.vm, #[trigger] items[n])
        && stands_in_no_other(qs, c, items[n]) by {
        lemma_level_alone(m.vm, young, old, qs, c, n);
    }
    assert forall|n: int| 0 <= n < rest.len() implies apart(m.vm, #[trigger] rest[n]) by {
        if n < i {
            assert(rest[n] == items[n]);
        } else {
            assert(rest[n] == items[n + 1]);
        }
    }
    lemma_level_changed(m.vm, w, young, old, qs, c, items, rest);
    let rs = qs.update(c, rest);
    assert forall|k: int| 0 <= k < rs.len() implies !(#[trigger] rs[k]).contains(p) by {
        assert(stands_in_no_other(qs, c, items[i]));
        if k != c {
            assert(!qs[k].contains(p));
        }
    }
    law_next_is_first_of_the_highest(w, young, old, rs);
    lemma_next_stands(w, young, old, rs, p);
}

/// What runs next stands in a run queue.
proof fn lemma_next_stands(
    v: VmView,
    young: Seq<usize>,
    old: Seq<usize>,
    qs: Seq<Seq<Value>>,
    p: Value,
)
    requires
        schedule(v, young, old, qs),
        forall|k: int| 0 <= k < qs.len() ==> !(#[trigger] qs[k]).contains(p),
    ensures
        v.next_runnable().1 != Some(p),
{
    law_next_is_first_of_the_highest(v, young, old, qs);
    lemma_top_or_none(qs, qs.len() as int);
    if exists|k: int| is_top(qs, k) {
        let k = choose|k: int| is_top(qs, k);
        assert(qs[k].contains(qs[k][0]));
        assert(!qs[k].contains(p));
    }
}

/// Some level is the highest with a process, or all are empty.
proof fn lemma_top_or_none(qs: Seq<Seq<Value>>, n: int)
    requires
        0 <= n <= qs.len(),
        forall|j: int| n <= j < qs.len() ==> (#[trigger] qs[j]).len() == 0,
    ensures
        (exists|k: int| is_top(qs, k)) || (forall|k: int|
            0 <= k < qs.len() ==> (#[trigger] qs[k]).len() == 0),
    decreases n,
{
    if n > 0 {
        if qs[n - 1].len() > 0 {
            assert(is_top(qs, n - 1));
        } else {
            lemma_top_or_none(qs, n - 1);
        }
    }
}

/// A process that waits for a semaphore and is suspended is not woken by it;
/// the run queues stay.
#[verifier::rlimit(40)]
pub proof fn law_suspend_ends_waiting(
    m: Machine,
    young: Seq<usize>,
    old: Seq<usize>,
    qs: Seq<Seq<Value>>,
    r: u8,
    argc: int,
    dest: u8,
    items: Seq<Value>,
    i: int,
)
    requires
        schedule(m.vm, young, old, qs),
        m.vm.is_a(m.get(r as int), CLASS_PROCESS),
        m.get(r as int) != m.vm.active,
        0 <= i < items.len(),
        items[i] == m.get(r as int),
        ({
            let sem = m.vm.field(m.get(r as int), PROCESS_MY_LIST as int);
            &&& semaphore_here(m.vm, young, old, sem, items)
        }),
    ensures
        m.dispatched_primitive(PRIM_PROCESS_SUSPEND, r, argc, dest) matches Ok((m1, o)) && {
            let sem = m.vm.field(m.get(r as int), PROCESS_MY_LIST as int);
            &&& schedule(m1.vm, young, old, qs)
            &&& queue_of(
                m1.vm,
                young,
                old,
                sem,
                SEMAPHORE_QUEUE_HEAD as int,
                SEMAPHORE_QUEUE_TAIL as int,
                items.remove(i),
            )
            &&& forall|k: int| 0 <= k < qs.len() ==> !(#[trigger] qs[k]).contains(m.get(r as int))
            &&& m1.vm.next_runnable().1 != Some(m.get(r as int))
        },
{
    let h = SEMAPHORE_QUEUE_HEAD as int;
    let t = SEMAPHORE_QUEUE_TAIL as int;
    let p = m.get(r as int);
    let sem = m.vm.field(p, PROCESS_MY_LIST as int);
    law_suspend_takes_out(m, young, old, r, argc, dest, h, t, items, i);
    lemma_suspend(m, r, argc, dest);
    let w = m.vm.unlisted(p);
    assert forall|n: int| 0 <= n < items.len() implies outside(m.vm, #[trigger] items[n])
        && stands_in_no_other(qs, -1, items[n]) by {
        lemma_member(m.vm, young, old, sem, h, t, items, n);
        lemma_stands_alone(m.vm, young, old, qs, -1, sem, items[n]);
    }
    lemma_levels_kept(m.vm, w, young, old, qs, sem, h, t, items);
    assert(stands_in_no_other(qs, -1, items[i]));
    lemma_next_stands(w, young, old, qs, p);
}

/// These processes wait for a semaphore, which is none of the scheduler's
/// objects, as they are not.
pub open spec fn semaphore_here(
    v: VmView,
    young: Seq<usize>,
    old: Seq<usize>,
    sem: Value,
    items: Seq<Value>,
) -> bool {
    &&& sem != v.nil()
    &&& v.is_a(sem, CLASS_SEMAPHORE)
    &&& v.heap.hdr(sem.addr()).class_field() as u32 == CLASS_SEMAPHORE
    &&& apart(v, sem)
    &&& roomy(v.heap, young, old, sem.addr(), SEMAPHORE_EXCESS_SIGNALS as int)
    &&& queue_of(
        v,
        young,
        old,
        sem,
        SEMAPHORE_QUEUE_HEAD as int,
        SEMAPHORE_QUEUE_TAIL as int,
        items,
    )
    &&& forall|i: int| 0 <= i < items.len() ==> idle(v, young, old, #[trigger] items[i])
}

// ---------------------------------------------------------------------------
// Giving up the processor
// ---------------------------------------------------------------------------
/// A machine whose running process can be switched from.
pub open spec fn running_here(
    m: Machine,
    young: Seq<usize>,
    old: Seq<usize>,
    qs: Seq<Seq<Value>>,
) -> bool {
    let s = m.vm.specials[SPECIAL_PROCESSOR as int];
    &&& schedule(m.vm, young, old, qs)
    &&& process_here(m.vm, young, old, m.vm.active)
    &&& idle(m.vm, young, old, m.vm.active)
    &&& stands_in_no_other(qs, -1, m.vm.active)
    &&& s != m.vm.run_queues()
    &&& roomy(m.vm.heap, young, old, s.addr(), SCHEDULER_ACTIVE_PROCESS as int)
}

/// The machine runs another process where it was, with these run queues; the
/// process that ran is where it was.
pub open spec fn runs_instead(
    m: Machine,
    w: Machine,
    young: Seq<usize>,
    old: Seq<usize>,
    qs: Seq<Seq<Value>>,
    p: Value,
) -> bool {
    &&& schedule(w.vm, young, old, qs)
    &&& w.vm.active == p
    &&& w.regs.stack == m.vm.field(p, PROCESS_STACK as int)
    &&& w.regs.frame == offset_of(m.vm.field(p, PROCESS_FRAME_OFFSET as int).int_value())
    &&& w.regs.pc == offset_of(m.vm.field(p, PROCESS_PC as int).int_value())
    &&& w.vm.field(m.vm.active, PROCESS_FRAME_OFFSET as int) == crate::value::tag(
        m.regs.frame as i64,
    )
    &&& w.vm.field(m.vm.active, PROCESS_PC as int) == crate::value::tag(m.regs.pc as i64)
}

/// A change of links keeps the running process fit to be switched from.
#[verifier::rlimit(40)]
proof fn lemma_still_running(
    m: Machine,
    v: VmView,
    young: Seq<usize>,
    old: Seq<usize>,
    list: Value,
    hs: int,
    ts: int,
    procs: Seq<Value>,
    p: Value,
)
    requires
        process_here(m.vm, young, old, m.vm.active),
        roomy(
            m.vm.heap,
            young,
            old,
            m.vm.specials[SPECIAL_PROCESSOR as int].addr(),
            SCHEDULER_ACTIVE_PROCESS as int,
        ),
        only_links(m.vm, v, young, old, list, hs, ts, procs),
        list != m.vm.active,
        list != p,
        process_here(m.vm, young, old, p),
    ensures
        process_here(v, young, old, m.vm.active),
        process_here(v, young, old, p),
        v.field(p, PROCESS_STACK as int) == m.vm.field(p, PROCESS_STACK as int),
        v.field(p, PROCESS_FRAME_OFFSET as int) == m.vm.field(p, PROCESS_FRAME_OFFSET as int),
        v.field(p, PROCESS_PC as int) == m.vm.field(p, PROCESS_PC as int),
        roomy(
            v.heap,
            young,
            old,
            v.specials[SPECIAL_PROCESSOR as int].addr(),
            SCHEDULER_ACTIVE_PROCESS as int,
        ),
        v.specials == m.vm.specials,
        v.active == m.vm.active,
{
    let a = m.vm.active;
    assert(roomy(m.vm.heap, young, old, a.addr(), PROCESS_STACK as int));
    assert(roomy(m.vm.heap, young, old, p.addr(), PROCESS_STACK as int));
    assert(roomy(m.vm.heap, young, old, p.addr(), PROCESS_FRAME_OFFSET as int));
    assert(roomy(m.vm.heap, young, old, p.addr(), PROCESS_PC as int));
    assert(v.field(a, PROCESS_STACK as int) == m.vm.field(a, PROCESS_STACK as int));
    assert(v.field(p, PROCESS_STACK as int) == m.vm.field(p, PROCESS_STACK as int));
    assert(roomy(v.heap, young, old, a.addr(), PROCESS_SERIAL_COUNTER as int));
    assert(roomy(v.heap, young, old, p.addr(), PROCESS_SERIAL_COUNTER as int));
    assert(roomy(
        v.heap,
        young,
        old,
        m.vm.specials[SPECIAL_PROCESSOR as int].addr(),
        SCHEDULER_ACTIVE_PROCESS as int,
    ));
}

/// The running process gives up the processor: the process that has waited
/// longest among those of the highest priority runs, and leaves its queue.
#[verifier::rlimit(60)]
#[verifier::spinoff_prover]
pub proof fn law_relinquish_runs_the_next(
    m: Machine,
    young: Seq<usize>,
    old: Seq<usize>,
    qs: Seq<Seq<Value>>,
    k: int,
)
    requires
        running_here(m, young, old, qs),
        is_top(qs, k),
        process_here(m.vm, young, old, qs[k][0]),
    ensures
        m.relinquished() matches Ok(w) && runs_instead(
            m,
            w,
            young,
            old,
            qs.update(k, qs[k].skip(1)),
            qs[k][0],
        ),
{
    reveal(Machine::relinquished);
    let p = qs[k][0];
    let h = LIST_HEAD as int;
    let t = LIST_TAIL as int;
    law_next_is_first_of_the_highest(m.vm, young, old, qs);
    let v = m.vm.next_runnable().0;
    let rs = qs.update(k, qs[k].skip(1));
    assert(level_holds(m.vm, young, old, k, qs[k]));
    lemma_member(m.vm, young, old, queue_at(m.vm, k), h, t, qs[k], 0);
    assert forall|n: int| 0 <= n < qs[k].len() implies outside(m.vm, #[trigger] qs[k][n]) by {
        assert(apart(m.vm, qs[k][n]));
    }
    assert(apart(m.vm, qs[k][0]));
    assert(apart(m.vm, m.vm.active));
    crate::scheduling::lemma_same_queues(
        m.vm,
        v,
        young,
        old,
        qs,
        queue_at(m.vm, k),
        h,
        t,
        qs[k],
    );
    assert(queue_at(m.vm, k) != m.vm.active);
    lemma_still_running(m, v, young, old, queue_at(m.vm, k), h, t, qs[k], p);
    let m1 = m.on(v);
    assert(p != m.vm.active) by {
        assert(!qs[k].contains(m.vm.active));
        assert(qs[k].contains(p));
    }
    assert(apart(v, p) && apart(v, m.vm.active));
    law_switch_keeps_queues(m1, young, old, rs, p);
    assert(laid_out(v.heap, young, old));
    law_switch_goes_on_there(m1, young, old, p);
}

/// With nobody to run the machine waits for its timers, and stops where
/// there are none.
pub proof fn law_relinquish_without_others(
    m: Machine,
    young: Seq<usize>,
    old: Seq<usize>,
    qs: Seq<Seq<Value>>,
)
    requires
        schedule(m.vm, young, old, qs),
        forall|k: int| 0 <= k < NUM_PRIORITIES ==> (#[trigger] qs[k]).len() == 0,
    ensures
        m.vm.timer_times.len() == 0 ==> (m.relinquished() matches Err(f) && f is Fatal),
        m.vm.timer_times.len() > 0 ==> (m.relinquished() matches Ok(w) && w.vm == m.vm
            && w.regs.pending is Idle),
{
    reveal(Machine::relinquished);
    law_next_is_first_of_the_highest(m.vm, young, old, qs);
}

/// The running process that suspends itself stops where it is, and the next
/// one runs.
#[verifier::rlimit(40)]
pub proof fn law_suspend_of_the_running(
    m: Machine,
    young: Seq<usize>,
    old: Seq<usize>,
    qs: Seq<Seq<Value>>,
    r: u8,
    argc: int,
    dest: u8,
    k: int,
)
    requires
        running_here(m, young, old, qs),
        m.get(r as int) == m.vm.active,
        m.vm.is_a(m.get(r as int), CLASS_PROCESS),
        is_top(qs, k),
        process_here(m.vm, young, old, qs[k][0]),
        qs[k][0] != m.vm.active,
    ensures
        m.dispatched_primitive(PRIM_PROCESS_SUSPEND, r, argc, dest) matches Ok((w, o)) && o
            == Outcome::Control && runs_instead(
            m,
            w,
            young,
            old,
            qs.update(k, qs[k].skip(1)),
            qs[k][0],
        ),
{
    lemma_suspend(m, r, argc, dest);
    reveal(Machine::prim_suspend);
    let m1 = m.saved();
    lemma_saved_running(m, young, old, qs, qs[k][0]);
    law_relinquish_runs_the_next(m1, young, old, qs, k);
}

/// Saved registers leave the running process fit to be switched from.
#[verifier::rlimit(40)]
proof fn lemma_saved_running(
    m: Machine,
    young: Seq<usize>,
    old: Seq<usize>,
    qs: Seq<Seq<Value>>,
    p: Value,
)
    requires
        running_here(m, young, old, qs),
        process_here(m.vm, young, old, p),
        p != m.vm.active,
    ensures
        running_here(m.saved(), young, old, qs),
        process_here(m.saved().vm, young, old, p),
        m.saved().vm.active == m.vm.active,
        m.saved().regs == m.regs,
        forall|j: int|
            0 <= j <= PROCESS_SERIAL_COUNTER ==> #[trigger] m.saved().vm.field(p, j) == m.vm.field(
                p,
                j,
            ),
        m.saved().vm.run_queues() == m.vm.run_queues(),
        same_but(
            m.vm,
            m.saved().vm,
            young,
            old,
            set![(m.vm.active, PROCESS_FRAME_OFFSET as int), (m.vm.active, PROCESS_PC as int)],
        ),
        forall|n: int| 0 <= n < NUM_PRIORITIES ==> #[trigger] queue_at(m.saved().vm, n) == queue_at(
            m.vm,
            n,
        ),
        forall|x: Value| #[trigger] outside(m.saved().vm, x) == outside(m.vm, x),
        forall|x: Value| #[trigger] apart(m.saved().vm, x) == apart(m.vm, x),
{
    let v = m.vm;
    let a = v.active;
    assert(level_holds(v, young, old, 0, qs[0]));
    lemma_ends(v, young, old, queue_at(v, 0), LIST_HEAD as int, LIST_TAIL as int, qs[0]);
    lemma_saved_fields(m, young, old);
    let w = v.saved(m.regs);
    let changed = set![(a, PROCESS_FRAME_OFFSET as int), (a, PROCESS_PC as int)];
    assert forall|x: Value, j: int| #[trigger] changed.contains((x, j)) implies !schedules(
        v,
        x,
        j,
    ) by {
        assert(apart(v, a));
    }
    lemma_schedule_same(v, w, young, old, changed, qs);
    assert forall|j: int| 0 <= j <= PROCESS_SERIAL_COUNTER implies #[trigger] w.field(p, j)
        == v.field(p, j) by {
        assert(roomy(v.heap, young, old, p.addr(), j));
    }
    assert(roomy(v.heap, young, old, a.addr(), PROCESS_STACK as int));
    assert(w.field(a, PROCESS_STACK as int) == v.field(a, PROCESS_STACK as int));
    assert(w.field(p, PROCESS_STACK as int) == v.field(p, PROCESS_STACK as int));
    assert(roomy(w.heap, young, old, a.addr(), PROCESS_SERIAL_COUNTER as int));
    assert(roomy(w.heap, young, old, p.addr(), PROCESS_SERIAL_COUNTER as int));
    assert(idle(w, young, old, a)) by {
        assert(roomy(w.heap, young, old, a.addr(), PROCESS_NEXT_LINK as int));
        assert(roomy(w.heap, young, old, a.addr(), PROCESS_MY_LIST as int));
        assert(apart(w, a));
    }
    assert(roomy(
        w.heap,
        young,
        old,
        w.specials[SPECIAL_PROCESSOR as int].addr(),
        SCHEDULER_ACTIVE_PROCESS as int,
    ));
}

// ---------------------------------------------------------------------------
// Becoming ready
// ---------------------------------------------------------------------------
/// A process becomes ready. Where its priority is not above that of the
/// running one it comes last among those of its priority, and the running one
/// goes on; else it runs at once, and the one that ran comes last among those
/// of its own priority.
#[verifier::rlimit(60)]
#[verifier::spinoff_prover]
pub proof fn law_ready_waits_or_runs(
    m: Machine,
    young: Seq<usize>,
    old: Seq<usize>,
    qs: Seq<Seq<Value>>,
    p: Value,
    result: Value,
)
    requires
        running_here(m, young, old, qs),
        process_here(m.vm, young, old, p),
        idle(m.vm, young, old, p),
        stands_in_no_other(qs, -1, p),
        p != m.vm.active,
    ensures
        ({
            let a = m.vm.active;
            let n = m.vm.field(p, PROCESS_PRIORITY as int).int_value();
            let c = m.vm.field(a, PROCESS_PRIORITY as int).int_value();
            &&& n <= c ==> (m.readied(p, result) matches Ok((w, o)) && o == Outcome::Value(result)
                && w.regs == m.regs && w.vm.active == a && schedule(
                w.vm,
                young,
                old,
                qs.update(level(m.vm, p), qs[level(m.vm, p)].push(p)),
            ))
            &&& n > c ==> (m.readied(p, result) matches Ok((w, o)) && o == Outcome::Control
                && runs_instead(
                m,
                w,
                young,
                old,
                qs.update(level(m.vm, a), qs[level(m.vm, a)].push(a)),
                p,
            ))
        }),
{
    let a = m.vm.active;
    let h = LIST_HEAD as int;
    let t = LIST_TAIL as int;
    let n = m.vm.field(p, PROCESS_PRIORITY as int).int_value();
    let c = m.vm.field(a, PROCESS_PRIORITY as int).int_value();
    if n <= c {
        law_made_runnable_comes_last(m.vm, young, old, qs, p);
    } else {
        law_made_runnable_comes_last(m.vm, young, old, qs, a);
        let l = level(m.vm, a);
        let all = qs[l].push(a);
        let rs = qs.update(l, all);
        let v = m.vm.made_runnable(a);
        let list = queue_at(m.vm, l);
        assert(level_holds(m.vm, young, old, l, qs[l]));
        assert(apart(m.vm, a) && apart(m.vm, p));
        assert forall|i: int| 0 <= i < all.len() implies outside(m.vm, #[trigger] all[i]) by {
            if i < qs[l].len() {
                assert(apart(m.vm, qs[l][i]));
            }
        }
        crate::scheduling::lemma_same_queues(m.vm, v, young, old, qs, list, h, t, all);
        assert(list != a && list != p);
        lemma_still_running(m, v, young, old, list, h, t, all, p);
        assert(apart(v, p) && apart(v, a));
        law_switch_keeps_queues(m.on(v), young, old, rs, p);
        law_switch_goes_on_there(m.on(v), young, old, p);
    }
}

/// A process that is resumed becomes ready; one that runs, has ended or
/// stands in a queue is refused, and nothing changes.
#[verifier::rlimit(40)]
pub proof fn law_resume_makes_ready(m: Machine, r: u8, argc: int, dest: u8)
    ensures
        ({
            let p = m.get(r as int);
            let res = m.dispatched_primitive(PRIM_PROCESS_RESUME, r, argc, dest);
            let can = m.vm.is_a(p, CLASS_PROCESS) && p != m.vm.active && m.vm.field(
                p,
                PROCESS_STACK as int,
            ) != m.vm.nil() && m.vm.field(p, PROCESS_MY_LIST as int) == m.vm.nil();
            &&& can ==> res == m.readied(p, p)
            &&& !can ==> (res matches Ok((w, o)) && o is Fail && w == m)
        }),
{
    reveal(Machine::dispatched_primitive);
    reveal(Machine::object_primitive);
    reveal(Machine::control_primitive);
    reveal(Machine::prim_resume);
}

/// A process that was suspended and is resumed stands last among those of its
/// priority.
#[verifier::rlimit(60)]
pub proof fn law_resumed_waits_again(
    m: Machine,
    young: Seq<usize>,
    old: Seq<usize>,
    qs: Seq<Seq<Value>>,
    r: u8,
    argc: int,
    dest: u8,
)
    requires
        running_here(m, young, old, qs),
        m.vm.is_a(m.get(r as int), CLASS_PROCESS),
        m.get(r as int) != m.vm.active,
        process_here(m.vm, young, old, m.get(r as int)),
        idle(m.vm, young, old, m.get(r as int)),
        m.vm.field(m.get(r as int), PROCESS_MY_LIST as int) == m.vm.nil(),
        m.vm.field(m.get(r as int), PROCESS_PRIORITY as int).int_value() <= m.vm.field(
            m.vm.active,
            PROCESS_PRIORITY as int,
        ).int_value(),
    ensures
        m.dispatched_primitive(PRIM_PROCESS_RESUME, r, argc, dest) matches Ok((w, o)) && {
            let p = m.get(r as int);
            &&& o == Outcome::Value(p)
            &&& w.regs == m.regs
            &&& schedule(
                w.vm,
                young,
                old,
                qs.update(level(m.vm, p), qs[level(m.vm, p)].push(p)),
            )
        },
{
    let p = m.get(r as int);
    law_resume_makes_ready(m, r, argc, dest);
    assert forall|k: int| 0 <= k < NUM_PRIORITIES && k != -1 implies #[trigger] queue_at(m.vm, k)
        != m.vm.nil() by {
        assert(level_holds(m.vm, young, old, k, qs[k]));
    }
    lemma_stands_alone(m.vm, young, old, qs, -1, m.vm.nil(), p);
    law_ready_waits_or_runs(m, young, old, qs, p, p);
}

// ---------------------------------------------------------------------------
// Yielding
// ---------------------------------------------------------------------------
/// The running process that yields comes last among those of its priority,
/// and the first of the highest priority runs: it goes on itself only where
/// no process of its priority or a higher one is ready.
#[verifier::rlimit(60)]
#[verifier::spinoff_prover]
pub proof fn law_yield_lets_the_next_run(
    m: Machine,
    young: Seq<usize>,
    old: Seq<usize>,
    qs: Seq<Seq<Value>>,
    r: u8,
    argc: int,
    dest: u8,
    k: int,
)
    requires
        running_here(m, young, old, qs),
        is_top(qs.update(level(m.vm, m.vm.active), qs[level(m.vm, m.vm.active)].push(m.vm.active)), k),
        ({
            let l = level(m.vm, m.vm.active);
            let next = qs.update(l, qs[l].push(m.vm.active))[k][0];
            next != m.vm.active ==> process_here(m.vm, young, old, next)
        }),
    ensures
        ({
            let l = level(m.vm, m.vm.active);
            let all = qs.update(l, qs[l].push(m.vm.active));
            let next = all[k][0];
            let res = m.dispatched_primitive(PRIM_YIELD, r, argc, dest);
            &&& next == m.vm.active ==> (res matches Ok((w, o)) && o is Value && w.regs == m.regs
                && w.vm.active == m.vm.active && schedule(w.vm, young, old, qs))
            &&& next != m.vm.active ==> (res matches Ok((w, o)) && o == Outcome::Control
                && runs_instead(m, w, young, old, all.update(k, all[k].skip(1)), next))
            &&& next == m.vm.active <==> (forall|j: int|
                l <= j < NUM_PRIORITIES ==> (#[trigger] qs[j]).len() == 0)
        }),
{
    reveal(Machine::dispatched_primitive);
    reveal(Machine::object_primitive);
    reveal(Machine::control_primitive);
    reveal(Machine::prim_yield);
    let a = m.vm.active;
    let h = LIST_HEAD as int;
    let t = LIST_TAIL as int;
    let l = level(m.vm, a);
    let mine = qs[l].push(a);
    let all = qs.update(l, mine);
    let next = all[k][0];
    law_made_runnable_comes_last(m.vm, young, old, qs, a);
    let v = m.vm.made_runnable(a);
    let list = queue_at(m.vm, l);
    assert(level_holds(m.vm, young, old, l, qs[l]));
    assert(apart(m.vm, a));
    assert forall|i: int| 0 <= i < mine.len() implies outside(m.vm, #[trigger] mine[i]) by {
        if i < qs[l].len() {
            assert(apart(m.vm, qs[l][i]));
        }
    }
    crate::scheduling::lemma_same_queues(m.vm, v, young, old, qs, list, h, t, mine);
    lemma_yielder(qs, l, k, a);
    law_next_is_first_of_the_highest(v, young, old, all);
    let v1 = v.next_runnable().0;
    let rs = all.update(k, all[k].skip(1));
    let q1 = queue_at(v, k);
    assert(level_holds(v, young, old, k, all[k]));
    assert(apart(v, all[k][0]));
    assert(apart(m.vm, next));
    if next == a {
        assert(all[k].skip(1) =~= qs[l]);
        assert(rs =~= qs);
        assert(roomy(m.vm.heap, young, old, a.addr(), PROCESS_MY_LIST as int));
        assert(roomy(v.heap, young, old, a.addr(), PROCESS_MY_LIST as int));
        assert(roomy(v1.heap, young, old, a.addr(), PROCESS_MY_LIST as int));
        lemma_nil_again(v1, young, old, qs, a);
    } else {
        lemma_requeued(m, young, old, qs, k);
    }
}

/// The running process is put last at its level, and another one runs.
#[verifier::rlimit(60)]
#[verifier::spinoff_prover]
proof fn lemma_requeued(
    m: Machine,
    young: Seq<usize>,
    old: Seq<usize>,
    qs: Seq<Seq<Value>>,
    k: int,
)
    requires
        running_here(m, young, old, qs),
        is_top(qs.update(level(m.vm, m.vm.active), qs[level(m.vm, m.vm.active)].push(m.vm.active)), k),
        ({
            let l = level(m.vm, m.vm.active);
            let next = qs.update(l, qs[l].push(m.vm.active))[k][0];
            next != m.vm.active && process_here(m.vm, young, old, next)
        }),
    ensures
        ({
            let l = level(m.vm, m.vm.active);
            let all = qs.update(l, qs[l].push(m.vm.active));
            let (v, p) = m.vm.made_runnable(m.vm.active).next_runnable();
            &&& p == Some(all[k][0])
            &&& runs_instead(
                m,
                m.on(v).switched(all[k][0]),
                young,
                old,
                all.update(k, all[k].skip(1)),
                all[k][0],
            )
        }),
{
    let a = m.vm.active;
    let h = LIST_HEAD as int;
    let t = LIST_TAIL as int;
    let l = level(m.vm, a);
    let mine = qs[l].push(a);
    let all = qs.update(l, mine);
    let next = all[k][0];
    law_made_runnable_comes_last(m.vm, young, old, qs, a);
    let v = m.vm.made_runnable(a);
    let list = queue_at(m.vm, l);
    assert(level_holds(m.vm, young, old, l, qs[l]));
    assert(apart(m.vm, a));
    assert forall|i: int| 0 <= i < mine.len() implies outside(m.vm, #[trigger] mine[i]) by {
        if i < qs[l].len() {
            assert(apart(m.vm, qs[l][i]));
        }
    }
    crate::scheduling::lemma_same_queues(m.vm, v, young, old, qs, list, h, t, mine);
    law_next_is_first_of_the_highest(v, young, old, all);
    let v1 = v.next_runnable().0;
    let rs = all.update(k, all[k].skip(1));
    let q1 = queue_at(v, k);
    assert(level_holds(v, young, old, k, all[k]));
    assert(apart(v, all[k][0]));
    assert(apart(m.vm, next));
    assert forall|i: int| 0 <= i < all[k].len() implies outside(v, #[trigger] all[k][i]) by {
        assert(apart(v, all[k][i]));
    }
    crate::scheduling::lemma_same_queues(v, v1, young, old, all, q1, h, t, all[k]);
    assert(q1 == queue_at(m.vm, k));
    assert(q1 != a && q1 != next && list != a && list != next);
    lemma_still_running(m, v, young, old, list, h, t, mine, next);
    lemma_still_running(m.on(v), v1, young, old, q1, h, t, all[k], next);
    assert(apart(v1, a) && apart(v1, next));
    assert(m.vm.specials[SPECIAL_PROCESSOR as int] != m.vm.run_queues());
    law_switch_keeps_queues(m.on(v1), young, old, rs, next);
    law_switch_goes_on_there(m.on(v1), young, old, next);
}

// ---------------------------------------------------------------------------
// Preemption
// ---------------------------------------------------------------------------
/// The highest priority with a process that is ready.
proof fn lemma_ceiling(
    v: VmView,
    young: Seq<usize>,
    old: Seq<usize>,
    qs: Seq<Seq<Value>>,
    prio: nat,
)
    requires
        schedule(v, young, old, qs),
        prio <= NUM_PRIORITIES,
    ensures
        v.ceiling_below(prio) matches Some(n) ==> 0 < n <= prio && qs[n - 1].len() > 0 && forall|j: int|
            n <= j < prio ==> (#[trigger] qs[j]).len() == 0,
        v.ceiling_below(prio) is None ==> forall|j: int|
            0 <= j < prio ==> (#[trigger] qs[j]).len() == 0,
    decreases prio,
{
    if prio > 0 {
        let j = prio - 1;
        let q = queue_at(v, j);
        assert(level_holds(v, young, old, j, qs[j]));
        lemma_ends(v, young, old, q, LIST_HEAD as int, LIST_TAIL as int, qs[j]);
        if qs[j].len() > 0 {
            lemma_member(v, young, old, q, LIST_HEAD as int, LIST_TAIL as int, qs[j], 0);
        } else {
            lemma_ceiling(v, young, old, qs, j as nat);
        }
    }
}

/// At a safepoint the running process goes on unless a process of a higher
/// priority is ready; then the first of the highest priority runs, and the
/// one that ran comes last among those of its own.
#[verifier::rlimit(60)]
#[verifier::spinoff_prover]
pub proof fn law_higher_priorities_preempt(
    m: Machine,
    young: Seq<usize>,
    old: Seq<usize>,
    qs: Seq<Seq<Value>>,
)
    requires
        running_here(m, young, old, qs),
        forall|k: int| #[trigger] is_top(qs, k) ==> process_here(m.vm, young, old, qs[k][0]),
    ensures
        ({
            let n = m.vm.field(m.vm.active, PROCESS_PRIORITY as int).int_value();
            let l = level(m.vm, m.vm.active);
            let all = qs.update(l, qs[l].push(m.vm.active));
            &&& forall|k: int| #[trigger]
                is_top(qs, k) && k + 1 > n ==> runs_instead(
                    m,
                    m.preempted(),
                    young,
                    old,
                    all.update(k, all[k].skip(1)),
                    qs[k][0],
                )
            &&& (forall|k: int| #[trigger] is_top(qs, k) ==> k + 1 <= n) ==> m.preempted() == m
        }),
{
    reveal(Machine::preempted);
    let a = m.vm.active;
    let n = m.vm.field(a, PROCESS_PRIORITY as int).int_value();
    let l = level(m.vm, a);
    let all = qs.update(l, qs[l].push(a));
    lemma_ceiling(m.vm, young, old, qs, NUM_PRIORITIES as nat);
    assert forall|k: int| #[trigger] is_top(qs, k) && k + 1 > n implies runs_instead(
        m,
        m.preempted(),
        young,
        old,
        all.update(k, all[k].skip(1)),
        qs[k][0],
    ) by {
        assert(m.vm.ceiling() == Some((k + 1) as i64)) by {
            let c = m.vm.ceiling();
            if c is None {
                assert(qs[k].len() == 0);
            } else {
                let i = c->0 - 1;
                if i < k {
                    assert(qs[k].len() == 0);
                }
                if k < i {
                    assert(qs[i].len() == 0);
                }
            }
        }
        assert(l <= k);
        assert(is_top(all, k)) by {
            assert forall|j: int| k < j < all.len() implies (#[trigger] all[j]).len() == 0 by {
                assert(qs[j].len() == 0);
            }
        }
        assert(all[k][0] == qs[k][0]);
        assert(qs[k][0] != a) by {
            assert(qs[k].contains(qs[k][0]));
            assert(!qs[k].contains(a));
        }
        lemma_requeued(m, young, old, qs, k);
    }
    if forall|k: int| #[trigger] is_top(qs, k) ==> k + 1 <= n {
        if let Some(c) = m.vm.ceiling() {
            assert(is_top(qs, c - 1));
        }
    }
}

/// A signal from a timer: the process that has waited longest becomes ready,
/// and the running one goes on; a signal that nobody waits for is kept.
#[verifier::rlimit(60)]
#[verifier::spinoff_prover]
pub proof fn law_timer_signal_makes_ready(
    v: VmView,
    young: Seq<usize>,
    old: Seq<usize>,
    qs: Seq<Seq<Value>>,
    sem: Value,
    items: Seq<Value>,
)
    requires
        schedule(v, young, old, qs),
        semaphore_here(v, young, old, sem, items),
        items.len() > 0 ==> roomy(
            v.heap,
            young,
            old,
            items[0].addr(),
            PROCESS_SERIAL_COUNTER as int,
        ),
        0 <= v.field(sem, SEMAPHORE_EXCESS_SIGNALS as int).int_value() < crate::value::SMALLINT_MAX,
    ensures
        v.signaled(sem).active == v.active,
        items.len() > 0 ==> schedule(
            v.signaled(sem),
            young,
            old,
            qs.update(level(v, items[0]), qs[level(v, items[0])].push(items[0])),
        ),
        items.len() == 0 ==> schedule(v.signaled(sem), young, old, qs) && v.signaled(sem).field(
            sem,
            SEMAPHORE_EXCESS_SIGNALS as int,
        ).int_value() == v.field(sem, SEMAPHORE_EXCESS_SIGNALS as int).int_value() + 1,
{
    reveal(VmView::signaled);
    let h = SEMAPHORE_QUEUE_HEAD as int;
    let t = SEMAPHORE_QUEUE_TAIL as int;
    let e = SEMAPHORE_EXCESS_SIGNALS as int;
    law_dequeued_first(v, young, old, sem, h, t, items);
    lemma_ends(v, young, old, sem, h, t, items);
    assert(apart(v, sem));
    if items.len() > 0 {
        let p = items[0];
        lemma_dequeued_only(v, young, old, sem, h, t, items);
        let w = v.dequeued(sem, h, t).0;
        assert forall|n: int| 0 <= n < items.len() implies outside(v, #[trigger] items[n])
            && stands_in_no_other(qs, -1, items[n]) by {
            assert(idle(v, young, old, items[n]));
            assert(apart(v, items[n]));
            lemma_member(v, young, old, sem, h, t, items, n);
            lemma_stands_alone(v, young, old, qs, -1, sem, items[n]);
        }
        lemma_levels_kept(v, w, young, old, qs, sem, h, t, items);
        crate::scheduling::lemma_same_queues(v, w, young, old, qs, sem, h, t, items);
        assert(idle(v, young, old, items[0]));
        lemma_member(v, young, old, sem, h, t, items, 0);
        assert(idle(w, young, old, p)) by {
            assert(apart(v, p));
            assert(apart(w, p));
            assert(roomy(w.heap, young, old, p.addr(), PROCESS_NEXT_LINK as int));
            assert(roomy(w.heap, young, old, p.addr(), PROCESS_MY_LIST as int));
        }
        assert(stands_in_no_other(qs, -1, items[0]));
        lemma_same_priority(v, w, young, old, sem, h, t, items, p);
        law_made_runnable_comes_last(w, young, old, qs, p);
    } else {
        let n = v.field(sem, e).int_value();
        lemma_field_set(v, young, old, sem, e, crate::value::tag((n + 1) as i64));
        crate::value::lemma_tag_bits((n + 1) as i64);
        let changed = set![(sem, e)];
        assert forall|a: Value, j: int| #[trigger] changed.contains((a, j)) implies !schedules(
            v,
            a,
            j,
        ) by {
            assert(apart(v, sem));
        }
        lemma_schedule_same(v, v.excess_added(sem), young, old, changed, qs);
    }
}

/// What the timers become when they are served: every request whose time has
/// come is signalled once, in the order of the requests, and the others stay,
/// in order.
pub proof fn law_due_timers_are_signalled(v: VmView)
    requires
        v.timer_sems.len() == v.timer_times.len(),
    ensures
        ({
            let all = Seq::new(v.timer_times.len(), |i: int| (v.timer_times[i], v.timer_sems[i]));
            let now = v.now_ms();
            let kept = all.filter(|x: (i64, Value)| x.0 > now);
            let due = all.filter(|x: (i64, Value)| x.0 <= now);
            v.timers_served() == (VmView {
                timer_times: kept.map_values(|x: (i64, Value)| x.0),
                timer_sems: kept.map_values(|x: (i64, Value)| x.1),
                ..v
            }).signaled_all(due.map_values(|x: (i64, Value)| x.1), 0)
        }),
{
    reveal(VmView::timers_served);
    let n = v.timer_times.len() as int;
    let all = Seq::new(v.timer_times.len(), |i: int| (v.timer_times[i], v.timer_sems[i]));
    assert(all.take(n) =~= all);
    lemma_timers(v, all, n);
}

proof fn lemma_timers(v: VmView, all: Seq<(i64, Value)>, n: int)
    requires
        0 <= n <= all.len(),
        all.len() == v.timer_times.len() == v.timer_sems.len(),
        forall|i: int| 0 <= i < all.len() ==> #[trigger] all[i] == (v.timer_times[i], v.timer_sems[i]),
    ensures
        ({
            let now = v.now_ms();
            let kept = all.take(n).filter(|x: (i64, Value)| x.0 > now);
            let due = all.take(n).filter(|x: (i64, Value)| x.0 <= now);
            let times = v.timer_times;
            let sems = v.timer_sems;
            &&& crate::sched::kept_times(times, now, n) == kept.map_values(|x: (i64, Value)| x.0)
            &&& crate::sched::sems_where(times, sems, now, false, n) == kept.map_values(
                |x: (i64, Value)| x.1,
            )
            &&& crate::sched::sems_where(times, sems, now, true, n) == due.map_values(
                |x: (i64, Value)| x.1,
            )
        }),
    decreases n,
{
    let now = v.now_ms();
    let p = |x: (i64, Value)| x.0 > now;
    let q = |x: (i64, Value)| x.0 <= now;
    let s = all.take(n);
    reveal(Seq::filter);
    if n > 0 {
        lemma_timers(v, all, n - 1);
        assert(s.drop_last() =~= all.take(n - 1));
        assert(s.last() == all[n - 1]);
        let r = all.take(n - 1);
        if p(s.last()) {
            assert(s.filter(p) == r.filter(p).push(s.last()));
            assert(s.filter(q) == r.filter(q));
        } else {
            assert(s.filter(p) == r.filter(p));
            assert(s.filter(q) == r.filter(q).push(s.last()));
        }
        assert(crate::sched::kept_times(v.timer_times, now, n) =~= s.filter(p).map_values(
            |x: (i64, Value)| x.0,
        ));
        assert(crate::sched::sems_where(v.timer_times, v.timer_sems, now, false, n) =~= s.filter(
            p,
        ).map_values(|x: (i64, Value)| x.1));
        assert(crate::sched::sems_where(v.timer_times, v.timer_sems, now, true, n) =~= s.filter(
            q,
        ).map_values(|x: (i64, Value)| x.1));
    } else {
        assert(s =~= Seq::empty());
        assert(s.filter(p).map_values(|x: (i64, Value)| x.0) =~= Seq::<i64>::empty());
        assert(s.filter(p).map_values(|x: (i64, Value)| x.1) =~= Seq::<Value>::empty());
        assert(s.filter(q).map_values(|x: (i64, Value)| x.1) =~= Seq::<Value>::empty());
    }
}

/// Who runs next after a process that was put last at its level.
proof fn lemma_yielder(qs: Seq<Seq<Value>>, l: int, k: int, a: Value)
    requires
        0 <= l < qs.len(),
        is_top(qs.update(l, qs[l].push(a)), k),
        stands_in_no_other(qs, -1, a),
    ensures
        l <= k,
        qs.update(l, qs[l].push(a))[k][0] == a <==> (forall|j: int|
            l <= j < qs.len() ==> (#[trigger] qs[j]).len() == 0),
        qs.update(l, qs[l].push(a))[k][0] == a ==> k == l && qs[l].len() == 0,
{
    let all = qs.update(l, qs[l].push(a));
    assert(all[l].len() > 0);
    if k < l {
        assert(all[l].len() == 0);
    }
    if all[k][0] == a {
        if k != l {
            assert(qs[k].contains(qs[k][0]));
            assert(!qs[k].contains(a));
        }
        if qs[l].len() > 0 {
            assert(qs[l].contains(qs[l][0]));
            assert(!qs[l].contains(a));
        }
        assert forall|j: int| l <= j < qs.len() implies (#[trigger] qs[j]).len() == 0 by {
            if j > l {
                assert(all[j] == qs[j]);
            }
        }
    } else if forall|j: int| l <= j < qs.len() ==> (#[trigger] qs[j]).len() == 0 {
        assert(qs[k].len() == 0);
        assert(k == l);
        assert(all[k][0] == a);
    }
}

/// The list of a process that stands in no queue set to nil again.
proof fn lemma_nil_again(
    v: VmView,
    young: Seq<usize>,
    old: Seq<usize>,
    qs: Seq<Seq<Value>>,
    p: Value,
)
    requires
        schedule(v, young, old, qs),
        roomy(v.heap, young, old, p.addr(), PROCESS_MY_LIST as int),
        v.field(p, PROCESS_MY_LIST as int) == v.nil(),
    ensures
        schedule(v.with_field(p, PROCESS_MY_LIST as int, v.nil()), young, old, qs),
        v.with_field(p, PROCESS_MY_LIST as int, v.nil()).active == v.active,
{
    let ml = PROCESS_MY_LIST as int;
    assert(level_holds(v, young, old, 0, qs[0]));
    lemma_ends(v, young, old, queue_at(v, 0), LIST_HEAD as int, LIST_TAIL as int, qs[0]);
    lemma_field_set(v, young, old, p, ml, v.nil());
    let w = v.with_field(p, ml, v.nil());
    assert forall|a: Value, j: int| roomy(v.heap, young, old, a.addr(), j) implies #[trigger] w.field(
        a,
        j,
    ) == v.field(a, j) by {
        if !(a == p && j == ml) {
            assert(!set![(p, ml)].contains((a, j)));
        }
    }
    assert(same_but(v, w, young, old, Set::empty()));
    lemma_schedule_same(v, w, young, old, Set::empty(), qs);
}

// ---------------------------------------------------------------------------
// Semaphores
// ---------------------------------------------------------------------------
/// A signal that somebody waits for: the process that has waited longest
/// leaves the queue and becomes ready, and the others wait on in order.
#[verifier::rlimit(60)]
#[verifier::spinoff_prover]
pub proof fn law_signal_wakes_the_first(
    m: Machine,
    young: Seq<usize>,
    old: Seq<usize>,
    qs: Seq<Seq<Value>>,
    items: Seq<Value>,
    r: u8,
    argc: int,
    dest: u8,
)
    requires
        running_here(m, young, old, qs),
        semaphore_here(m.vm, young, old, m.get(r as int), items),
        items.len() > 0,
        process_here(m.vm, young, old, items[0]),
        items[0] != m.vm.active,
        m.get(r as int) != m.vm.active,
    ensures
        ({
            let sem = m.get(r as int);
            let p = items[0];
            let a = m.vm.active;
            let n = m.vm.field(p, PROCESS_PRIORITY as int).int_value();
            let c = m.vm.field(a, PROCESS_PRIORITY as int).int_value();
            let res = m.dispatched_primitive(PRIM_SEMAPHORE_SIGNAL, r, argc, dest);
            &&& n <= c ==> (res matches Ok((w, o)) && o == Outcome::Value(sem) && w.regs == m.regs
                && w.vm.active == a && schedule(
                w.vm,
                young,
                old,
                qs.update(level(m.vm, p), qs[level(m.vm, p)].push(p)),
            ) && queue_of(
                w.vm,
                young,
                old,
                sem,
                SEMAPHORE_QUEUE_HEAD as int,
                SEMAPHORE_QUEUE_TAIL as int,
                items.skip(1),
            ))
            &&& n > c ==> (res matches Ok((w, o)) && o == Outcome::Control && runs_instead(
                m,
                w,
                young,
                old,
                qs.update(level(m.vm, a), qs[level(m.vm, a)].push(a)),
                p,
            ))
        }),
{
    reveal(Machine::dispatched_primitive);
    reveal(Machine::object_primitive);
    reveal(Machine::control_primitive);
    reveal(Machine::prim_signal);
    let h = SEMAPHORE_QUEUE_HEAD as int;
    let t = SEMAPHORE_QUEUE_TAIL as int;
    let sem = m.get(r as int);
    let p = items[0];
    let a = m.vm.active;
    law_dequeued_first(m.vm, young, old, sem, h, t, items);
    lemma_dequeued_only(m.vm, young, old, sem, h, t, items);
    let v = m.vm.dequeued(sem, h, t).0;
    assert(apart(m.vm, sem));
    assert forall|n: int| 0 <= n < items.len() implies outside(m.vm, #[trigger] items[n])
        && stands_in_no_other(qs, -1, items[n]) by {
        assert(idle(m.vm, young, old, items[n]));
        assert(apart(m.vm, items[n]));
        lemma_member(m.vm, young, old, sem, h, t, items, n);
        lemma_stands_alone(m.vm, young, old, qs, -1, sem, items[n]);
    }
    lemma_levels_kept(m.vm, v, young, old, qs, sem, h, t, items);
    crate::scheduling::lemma_same_queues(m.vm, v, young, old, qs, sem, h, t, items);
    assert(idle(m.vm, young, old, items[0]));
    lemma_member(m.vm, young, old, sem, h, t, items, 0);
    assert(apart(m.vm, p) && apart(m.vm, a));
    assert(idle(v, young, old, p)) by {
        assert(apart(v, p));
        assert(roomy(v.heap, young, old, p.addr(), PROCESS_NEXT_LINK as int));
        assert(roomy(v.heap, young, old, p.addr(), PROCESS_MY_LIST as int));
    }
    assert(idle(v, young, old, a)) by {
        assert(apart(v, a));
        assert(roomy(v.heap, young, old, a.addr(), PROCESS_NEXT_LINK as int));
        assert(roomy(v.heap, young, old, a.addr(), PROCESS_MY_LIST as int));
    }
    lemma_still_running(m, v, young, old, sem, h, t, items, p);
    let m1 = m.on(v);
    assert(running_here(m1, young, old, qs));
    assert(stands_in_no_other(qs, -1, items[0]));
    lemma_same_priority(m.vm, v, young, old, sem, h, t, items, p);
    lemma_same_priority(m.vm, v, young, old, sem, h, t, items, a);
    law_ready_waits_or_runs(m1, young, old, qs, p, sem);
    let n = m.vm.field(p, PROCESS_PRIORITY as int).int_value();
    let c = m.vm.field(a, PROCESS_PRIORITY as int).int_value();
    if n <= c {
        law_made_runnable_comes_last(v, young, old, qs, p);
        let l = level(v, p);
        let procs = qs[l].push(p);
        let rest = items.skip(1);
        assert(level_holds(v, young, old, l, qs[l]));
        assert forall|i: int| 0 <= i < rest.len() implies !procs.contains(#[trigger] rest[i]) by {
            assert(rest[i] == items[i + 1]);
            assert(stands_in_no_other(qs, -1, items[i + 1]));
            assert(!qs[l].contains(items[i + 1]));
            assert(items[i + 1] != items[0]);
            if procs.contains(rest[i]) {
                let j = choose|j: int| 0 <= j < procs.len() && procs[j] == rest[i];
                if j < qs[l].len() {
                    assert(qs[l][j] == rest[i]);
                    assert(qs[l].contains(rest[i]));
                }
            }
        }
        assert(queue_at(v, l) != sem);
        crate::scheduling::lemma_other_queue(
            v,
            v.made_runnable(p),
            young,
            old,
            queue_at(v, l),
            LIST_HEAD as int,
            LIST_TAIL as int,
            procs,
            sem,
            h,
            t,
            rest,
        );
    }
}

/// Links say nothing of a priority.
proof fn lemma_same_priority(
    v: VmView,
    w: VmView,
    young: Seq<usize>,
    old: Seq<usize>,
    list: Value,
    hs: int,
    ts: int,
    procs: Seq<Value>,
    p: Value,
)
    requires
        only_links(v, w, young, old, list, hs, ts, procs),
        roomy(v.heap, young, old, p.addr(), PROCESS_SERIAL_COUNTER as int),
        list != p,
    ensures
        w.field(p, PROCESS_PRIORITY as int) == v.field(p, PROCESS_PRIORITY as int),
        level(w, p) == level(v, p),
{
    assert(roomy(v.heap, young, old, p.addr(), PROCESS_PRIORITY as int));
}

/// A signal that nobody waits for is counted, and changes nothing else.
pub proof fn law_signal_is_kept(
    m: Machine,
    young: Seq<usize>,
    old: Seq<usize>,
    qs: Seq<Seq<Value>>,
    r: u8,
    argc: int,
    dest: u8,
)
    requires
        schedule(m.vm, young, old, qs),
        semaphore_here(m.vm, young, old, m.get(r as int), Seq::empty()),
        0 <= m.vm.field(m.get(r as int), SEMAPHORE_EXCESS_SIGNALS as int).int_value()
            < crate::value::SMALLINT_MAX,
    ensures
        m.dispatched_primitive(PRIM_SEMAPHORE_SIGNAL, r, argc, dest) matches Ok((w, o)) && {
            let sem = m.get(r as int);
            let e = SEMAPHORE_EXCESS_SIGNALS as int;
            &&& o == Outcome::Value(sem)
            &&& w.regs == m.regs
            &&& w.vm.field(sem, e).int_value() == m.vm.field(sem, e).int_value() + 1
            &&& same_but(m.vm, w.vm, young, old, set![(sem, e)])
            &&& schedule(w.vm, young, old, qs)
        },
{
    reveal(Machine::dispatched_primitive);
    reveal(Machine::object_primitive);
    reveal(Machine::control_primitive);
    reveal(Machine::prim_signal);
    let h = SEMAPHORE_QUEUE_HEAD as int;
    let t = SEMAPHORE_QUEUE_TAIL as int;
    let e = SEMAPHORE_EXCESS_SIGNALS as int;
    let sem = m.get(r as int);
    let n = m.vm.field(sem, e).int_value();
    law_dequeued_first(m.vm, young, old, sem, h, t, Seq::empty());
    lemma_ends(m.vm, young, old, sem, h, t, Seq::empty());
    lemma_field_set(m.vm, young, old, sem, e, crate::value::tag((n + 1) as i64));
    crate::value::lemma_tag_bits((n + 1) as i64);
    let w = m.vm.excess_added(sem);
    let changed = set![(sem, e)];
    assert forall|a: Value, j: int| #[trigger] changed.contains((a, j)) implies !schedules(
        m.vm,
        a,
        j,
    ) by {
        assert(apart(m.vm, sem));
    }
    lemma_schedule_same(m.vm, w, young, old, changed, qs);
}

/// A wait that finds a kept signal takes it and goes on: it changes nothing
/// else.
pub proof fn law_wait_takes_a_kept_signal(
    m: Machine,
    young: Seq<usize>,
    old: Seq<usize>,
    qs: Seq<Seq<Value>>,
    items: Seq<Value>,
    r: u8,
    argc: int,
    dest: u8,
)
    requires
        schedule(m.vm, young, old, qs),
        semaphore_here(m.vm, young, old, m.get(r as int), items),
        m.vm.field(m.get(r as int), SEMAPHORE_EXCESS_SIGNALS as int).int_value() > 0,
    ensures
        m.dispatched_primitive(PRIM_SEMAPHORE_WAIT, r, argc, dest) matches Ok((w, o)) && {
            let sem = m.get(r as int);
            let e = SEMAPHORE_EXCESS_SIGNALS as int;
            &&& o == Outcome::Value(sem)
            &&& w.regs == m.regs
            &&& w.vm.active == m.vm.active
            &&& w.vm.field(sem, e).int_value() == m.vm.field(sem, e).int_value() - 1
            &&& same_but(m.vm, w.vm, young, old, set![(sem, e)])
            &&& schedule(w.vm, young, old, qs)
        },
{
    reveal(Machine::dispatched_primitive);
    reveal(Machine::object_primitive);
    reveal(Machine::control_primitive);
    reveal(Machine::prim_wait);
    let h = SEMAPHORE_QUEUE_HEAD as int;
    let t = SEMAPHORE_QUEUE_TAIL as int;
    let e = SEMAPHORE_EXCESS_SIGNALS as int;
    let sem = m.get(r as int);
    let n = m.vm.field(sem, e).int_value();
    lemma_ends(m.vm, young, old, sem, h, t, items);
    lemma_field_set(m.vm, young, old, sem, e, crate::value::tag((n - 1) as i64));
    crate::value::lemma_tag_bits((n - 1) as i64);
    crate::value::lemma_untag_bits(m.vm.field(sem, e));
    let w = m.vm.with_field(sem, e, crate::value::tag((n - 1) as i64));
    let changed = set![(sem, e)];
    assert forall|a: Value, j: int| #[trigger] changed.contains((a, j)) implies !schedules(
        m.vm,
        a,
        j,
    ) by {
        assert(apart(m.vm, sem));
    }
    lemma_schedule_same(m.vm, w, young, old, changed, qs);
}

/// A wait without a kept signal: the running process comes last among those
/// that wait, and the next one that is ready runs.
#[verifier::rlimit(60)]
#[verifier::spinoff_prover]
pub proof fn law_wait_blocks(
    m: Machine,
    young: Seq<usize>,
    old: Seq<usize>,
    qs: Seq<Seq<Value>>,
    items: Seq<Value>,
    r: u8,
    argc: int,
    dest: u8,
    k: int,
)
    requires
        running_here(m, young, old, qs),
        semaphore_here(m.vm, young, old, m.get(r as int), items),
        !items.contains(m.vm.active),
        m.get(r as int) != m.vm.active,
        m.vm.field(m.get(r as int), SEMAPHORE_EXCESS_SIGNALS as int).int_value() <= 0,
        is_top(qs, k),
        process_here(m.vm, young, old, qs[k][0]),
        qs[k][0] != m.get(r as int),
    ensures
        m.dispatched_primitive(PRIM_SEMAPHORE_WAIT, r, argc, dest) matches Ok((w, o)) && {
            let sem = m.get(r as int);
            &&& o == Outcome::Control
            &&& runs_instead(m, w, young, old, qs.update(k, qs[k].skip(1)), qs[k][0])
            &&& queue_of(
                w.vm,
                young,
                old,
                sem,
                SEMAPHORE_QUEUE_HEAD as int,
                SEMAPHORE_QUEUE_TAIL as int,
                items.push(m.vm.active),
            )
        },
{
    reveal(Machine::dispatched_primitive);
    reveal(Machine::object_primitive);
    reveal(Machine::control_primitive);
    reveal(Machine::prim_wait);
    let h = SEMAPHORE_QUEUE_HEAD as int;
    let t = SEMAPHORE_QUEUE_TAIL as int;
    let sem = m.get(r as int);
    let a = m.vm.active;
    let p = qs[k][0];
    let v0 = VmView {
        ctr: crate::counters::CountersView {
            semaphore_blocks: m.vm.ctr.semaphore_blocks.wrapping_add(1),
            ..m.vm.ctr
        },
        ..m.vm
    };
    let m0 = m.on(v0);
    assert(forall|x: Value, j: int| #[trigger] v0.field(x, j) == m.vm.field(x, j)) by {
        reveal(VmView::field);
    }
    lemma_ends(m.vm, young, old, sem, h, t, items);
    lemma_same_but_self(m.vm, v0, young, old);
    lemma_schedule_same(m.vm, v0, young, old, Set::empty(), qs);
    assert(apart(m.vm, a) && apart(m.vm, sem));
    assert(running_here(m0, young, old, qs)) by {
        assert(apart(v0, a));
    }
    assert(level_holds(m.vm, young, old, k, qs[k]));
    assert(apart(m.vm, qs[k][0]));
    assert(p != a) by {
        assert(qs[k].contains(p));
        assert(!qs[k].contains(a));
    }
    lemma_saved_running(m0, young, old, qs, p);
    let v = v0.saved(m.regs);
    let m1 = m0.saved();
    let changed = set![(a, PROCESS_FRAME_OFFSET as int), (a, PROCESS_PC as int)];
    lemma_queue_same(m.vm, v0, young, old, Set::empty(), sem, h, t, items);
    lemma_queue_same(v0, v, young, old, changed, sem, h, t, items);
    assert(queueable(v, young, old, sem, a)) by {
        assert(roomy(v.heap, young, old, a.addr(), PROCESS_NEXT_LINK as int));
        assert(roomy(v.heap, young, old, a.addr(), PROCESS_MY_LIST as int));
    }
    law_enqueued_last(v, young, old, sem, h, t, items, a);
    lemma_enqueued_only(v, young, old, sem, h, t, items, a);
    let u = v.enqueued(sem, h, t, a);
    let all = items.push(a);
    lemma_wait_schedule(v, young, old, qs, sem, items, a);
    let m2 = m.on(u);
    assert(apart(v, a) && apart(v, sem) && apart(v, p));
    lemma_still_running(m1, u, young, old, sem, h, t, all, p);
    assert(apart(u, a) && apart(u, p));
    assert(running_here(m2, young, old, qs)) by {
        assert(roomy(u.heap, young, old, a.addr(), PROCESS_NEXT_LINK as int));
        assert(roomy(u.heap, young, old, a.addr(), PROCESS_MY_LIST as int));
    }
    law_relinquish_runs_the_next(m2, young, old, qs, k);
    law_relinquish_keeps_other_queue(m2, young, old, qs, k, sem, h, t, all);
    assert(m.vm.field(p, PROCESS_STACK as int) == v.field(p, PROCESS_STACK as int));
    assert(m.vm.field(p, PROCESS_FRAME_OFFSET as int) == v.field(p, PROCESS_FRAME_OFFSET as int));
    assert(m.vm.field(p, PROCESS_PC as int) == v.field(p, PROCESS_PC as int));
}

/// The run queues stay when a process joins the queue of a semaphore.
#[verifier::rlimit(40)]
proof fn lemma_wait_schedule(
    v: VmView,
    young: Seq<usize>,
    old: Seq<usize>,
    qs: Seq<Seq<Value>>,
    sem: Value,
    items: Seq<Value>,
    a: Value,
)
    requires
        schedule(v, young, old, qs),
        apart(v, sem),
        idle(v, young, old, a),
        stands_in_no_other(qs, -1, a),
        a != sem,
        !items.contains(a),
        queue_of(
            v,
            young,
            old,
            sem,
            SEMAPHORE_QUEUE_HEAD as int,
            SEMAPHORE_QUEUE_TAIL as int,
            items,
        ),
        forall|i: int| 0 <= i < items.len() ==> apart(v, #[trigger] items[i]),
    ensures
        ({
            let u = v.enqueued(
                sem,
                SEMAPHORE_QUEUE_HEAD as int,
                SEMAPHORE_QUEUE_TAIL as int,
                a,
            );
            &&& schedule(u, young, old, qs)
            &&& u.run_queues() == v.run_queues()
            &&& forall|n: int| 0 <= n < NUM_PRIORITIES ==> #[trigger] queue_at(u, n) == queue_at(v, n)
            &&& forall|x: Value| #[trigger] apart(u, x) == apart(v, x)
        }),
{
    let h = SEMAPHORE_QUEUE_HEAD as int;
    let t = SEMAPHORE_QUEUE_TAIL as int;
    let all = items.push(a);
    let u = v.enqueued(sem, h, t, a);
    lemma_enqueued_only(v, young, old, sem, h, t, items, a);
    assert forall|n: int| 0 <= n < all.len() implies outside(v, #[trigger] all[n])
        && stands_in_no_other(qs, -1, all[n]) by {
        if n < items.len() {
            assert(apart(v, items[n]));
            lemma_member(v, young, old, sem, h, t, items, n);
            lemma_stands_alone(v, young, old, qs, -1, sem, items[n]);
        } else {
            assert(apart(v, a));
        }
    }
    lemma_levels_kept(v, u, young, old, qs, sem, h, t, all);
    crate::scheduling::lemma_same_queues(v, u, young, old, qs, sem, h, t, all);
}

/// Giving up the processor leaves the queue of a semaphore as it is.
#[verifier::rlimit(60)]
#[verifier::spinoff_prover]
pub proof fn law_relinquish_keeps_other_queue(
    m: Machine,
    young: Seq<usize>,
    old: Seq<usize>,
    qs: Seq<Seq<Value>>,
    k: int,
    sem: Value,
    hs: int,
    ts: int,
    items: Seq<Value>,
)
    requires
        running_here(m, young, old, qs),
        is_top(qs, k),
        process_here(m.vm, young, old, qs[k][0]),
        queue_of(m.vm, young, old, sem, hs, ts, items),
        apart(m.vm, sem),
        end_slots(hs, ts),
        sem != m.vm.active,
    ensures
        m.relinquished() matches Ok(w) && queue_of(w.vm, young, old, sem, hs, ts, items),
{
    reveal(Machine::relinquished);
    let p = qs[k][0];
    let h = LIST_HEAD as int;
    let t = LIST_TAIL as int;
    law_next_is_first_of_the_highest(m.vm, young, old, qs);
    let v = m.vm.next_runnable().0;
    let list = queue_at(m.vm, k);
    assert(level_holds(m.vm, young, old, k, qs[k]));
    assert forall|n: int| 0 <= n < qs[k].len() implies outside(m.vm, #[trigger] qs[k][n]) by {
        assert(apart(m.vm, qs[k][n]));
    }
    crate::scheduling::lemma_same_queues(m.vm, v, young, old, qs, list, h, t, qs[k]);
    assert(apart(m.vm, p) && apart(m.vm, m.vm.active));
    assert forall|n: int| 0 <= n < items.len() implies !qs[k].contains(#[trigger] items[n]) by {
        lemma_member(m.vm, young, old, sem, hs, ts, items, n);
        lemma_stands_alone(m.vm, young, old, qs, -1, sem, items[n]);
    }
    crate::scheduling::lemma_other_queue(
        m.vm,
        v,
        young,
        old,
        list,
        h,
        t,
        qs[k],
        sem,
        hs,
        ts,
        items,
    );
    lemma_still_running(m, v, young, old, list, h, t, qs[k], p);
    assert(p != m.vm.active) by {
        assert(qs[k].contains(p));
        assert(!qs[k].contains(m.vm.active));
    }
    law_switch_goes_on_there(m.on(v), young, old, p);
    let changed = switch_fields(v);
    assert(!changed.contains((sem, hs)) && !changed.contains((sem, ts)));
    lemma_queue_same(v, m.on(v).switched(p).vm, young, old, changed, sem, hs, ts, items);
}

} // verus!
