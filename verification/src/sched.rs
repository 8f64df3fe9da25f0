//! The scheduler: process queues, run queues by priority, semaphores and
//! timers.

use crate::value::Value;
use crate::vm::{Vm, VmView};
use crate::treaty::{
    CLASS_SEMAPHORE, LIST_HEAD, LIST_TAIL, NUM_PRIORITIES, PROCESS_MY_LIST, PROCESS_NEXT_LINK,
    PROCESS_PRIORITY, SCHEDULER_QUEUES, SEMAPHORE_EXCESS_SIGNALS, SEMAPHORE_QUEUE_HEAD,
    SEMAPHORE_QUEUE_TAIL, SPECIAL_PROCESSOR,
};
use vstd::prelude::*;

verus! {

// ---------------------------------------------------------------------------
// Queues
// ---------------------------------------------------------------------------
impl VmView {
    /// A process appended to a queue, linked through the processes.
    #[verifier::opaque]
    pub open spec fn enqueued(self, list: Value, hs: int, ts: int, p: Value) -> VmView {
        let v1 = self.with_stored(p, PROCESS_NEXT_LINK as int, self.nil()).with_stored(
            p,
            PROCESS_MY_LIST as int,
            list,
        );
        let v2 = if v1.field(list, hs) == self.nil() {
            v1.with_stored(list, hs, p)
        } else {
            v1.with_stored(v1.field(list, ts), PROCESS_NEXT_LINK as int, p)
        };
        v2.with_stored(list, ts, p)
    }

    /// The first process of a queue taken out of it.
    #[verifier::opaque]
    pub open spec fn dequeued(self, list: Value, hs: int, ts: int) -> (VmView, Option<Value>) {
        let nil = self.nil();
        let head = self.field(list, hs);
        if head == nil {
            (self, None)
        } else {
            let next = self.field(head, PROCESS_NEXT_LINK as int);
            let v1 = self.with_stored(list, hs, next);
            let v2 = if next == nil {
                v1.with_stored(list, ts, nil)
            } else {
                v1
            };
            (
                v2.with_stored(head, PROCESS_NEXT_LINK as int, nil).with_stored(
                    head,
                    PROCESS_MY_LIST as int,
                    nil,
                ),
                Some(head),
            )
        }
    }

    /// A process taken out of the rest of a queue that starts at `cur`, after
    /// `prev`; the queue has at most `fuel` more processes.
    pub open spec fn spliced(
        self,
        list: Value,
        hs: int,
        ts: int,
        p: Value,
        prev: Value,
        cur: Value,
        fuel: nat,
    ) -> VmView
        decreases fuel,
    {
        let nil = self.nil();
        if fuel == 0 || cur == nil {
            self
        } else {
            let next = self.field(cur, PROCESS_NEXT_LINK as int);
            if cur == p {
                let v1 = if prev == nil {
                    self.with_stored(list, hs, next)
                } else {
                    self.with_stored(prev, PROCESS_NEXT_LINK as int, next)
                };
                if next == nil {
                    v1.with_stored(list, ts, prev)
                } else {
                    v1
                }
            } else {
                self.spliced(list, hs, ts, p, cur, next, (fuel - 1) as nat)
            }
        }
    }

    pub open spec fn head_slot(self, list: Value) -> int {
        if self.class_no(list) == CLASS_SEMAPHORE {
            SEMAPHORE_QUEUE_HEAD as int
        } else {
            LIST_HEAD as int
        }
    }

    pub open spec fn tail_slot(self, list: Value) -> int {
        if self.class_no(list) == CLASS_SEMAPHORE {
            SEMAPHORE_QUEUE_TAIL as int
        } else {
            LIST_TAIL as int
        }
    }

    /// A process taken out of whatever queue holds it.
    #[verifier::opaque]
    pub open spec fn unlisted(self, p: Value) -> VmView {
        let nil = self.nil();
        let list = self.field(p, PROCESS_MY_LIST as int);
        if list == nil {
            self
        } else {
            let hs = self.head_slot(list);
            self.spliced(
                list,
                hs,
                self.tail_slot(list),
                p,
                nil,
                self.field(list, hs),
                self.heap.words(),
            ).with_stored(p, PROCESS_NEXT_LINK as int, nil).with_stored(
                p,
                PROCESS_MY_LIST as int,
                nil,
            )
        }
    }

    pub open spec fn run_queues(self) -> Value {
        self.field(self.specials[SPECIAL_PROCESSOR as int], SCHEDULER_QUEUES as int)
    }

    pub open spec fn priority(self, p: Value) -> i64 {
        self.int_field(p, PROCESS_PRIORITY as int)
    }

    /// A process appended to the run queue of its priority.
    #[verifier::opaque]
    pub open spec fn made_runnable(self, p: Value) -> VmView {
        let n = self.priority(p);
        let prio = if n < 1 {
            1
        } else if n > NUM_PRIORITIES {
            NUM_PRIORITIES as int
        } else {
            n as int
        };
        let q = self.field(self.run_queues(), prio - 1);
        self.enqueued(q, LIST_HEAD as int, LIST_TAIL as int, p)
    }

    /// The first process of the highest nonempty run queue below `prio`
    /// taken out of it.
    pub open spec fn next_below(self, prio: nat) -> (VmView, Option<Value>)
        decreases prio,
    {
        if prio == 0 {
            (self, None)
        } else {
            let q = self.field(self.run_queues(), prio - 1);
            let (v, p) = self.dequeued(q, LIST_HEAD as int, LIST_TAIL as int);
            if p is Some {
                (v, p)
            } else {
                v.next_below((prio - 1) as nat)
            }
        }
    }

    /// The process that is to run next taken out of its run queue.
    pub open spec fn next_runnable(self) -> (VmView, Option<Value>) {
        self.next_below(NUM_PRIORITIES as nat)
    }

    /// The highest priority below `prio` with a runnable process.
    pub open spec fn ceiling_below(self, prio: nat) -> Option<i64>
        decreases prio,
    {
        if prio == 0 {
            None
        } else {
            let q = self.field(self.run_queues(), prio - 1);
            if self.field(q, LIST_HEAD as int) != self.nil() {
                Some(prio as i64)
            } else {
                self.ceiling_below((prio - 1) as nat)
            }
        }
    }

    pub open spec fn ceiling(self) -> Option<i64> {
        self.ceiling_below(NUM_PRIORITIES as nat)
    }
}

impl Vm {
    pub(crate) fn enqueue_process(&mut self, list: Value, head_slot: usize, tail_slot: usize, p: Value)
        requires
            old(self).wf(),
        ensures
            final(self).wf(),
            final(self)@ == old(self)@.enqueued(list, head_slot as int, tail_slot as int, p),
            final(self)@.temp_roots == old(self)@.temp_roots,
    {
        reveal(VmView::enqueued);
        reveal(VmView::with_stored);
        let nil = self.nil();
        self.store_field(p, PROCESS_NEXT_LINK as u64, nil);
        self.store_field(p, PROCESS_MY_LIST as u64, list);
        let head = self.field(list, head_slot as u64);
        if head == nil {
            self.store_field(list, head_slot as u64, p);
        } else {
            let tail = self.field(list, tail_slot as u64);
            self.store_field(tail, PROCESS_NEXT_LINK as u64, p);
        }
        self.store_field(list, tail_slot as u64, p);
    }

    pub(crate) fn dequeue_process(&mut self, list: Value, head_slot: usize, tail_slot: usize) -> (r:
        Option<Value>)
        requires
            old(self).wf(),
        ensures
            final(self).wf(),
            (final(self)@, r) == old(self)@.dequeued(list, head_slot as int, tail_slot as int),
            final(self)@.temp_roots == old(self)@.temp_roots,
            r is None ==> final(self)@ == old(self)@,
    {
        reveal(VmView::dequeued);
        let nil = self.nil();
        let head = self.field(list, head_slot as u64);
        if head == nil {
            return None;
        }
        let next = self.field(head, PROCESS_NEXT_LINK as u64);
        self.store_field(list, head_slot as u64, next);
        if next == nil {
            self.store_field(list, tail_slot as u64, nil);
        }
        self.store_field(head, PROCESS_NEXT_LINK as u64, nil);
        self.store_field(head, PROCESS_MY_LIST as u64, nil);
        Some(head)
    }

    fn queue_slots_of(&self, list: Value) -> (r: (usize, usize))
        requires
            self.wf(),
        ensures
            r.0 == self@.head_slot(list),
            r.1 == self@.tail_slot(list),
    {
        if self.class_no(list) == CLASS_SEMAPHORE {
            (SEMAPHORE_QUEUE_HEAD, SEMAPHORE_QUEUE_TAIL)
        } else {
            (LIST_HEAD, LIST_TAIL)
        }
    }

    /// Unlink a process from whatever queue holds it.
    #[verifier::loop_isolation(false)]
    #[verifier::rlimit(60)]
    pub(crate) fn remove_process_from_its_list(&mut self, p: Value)
        requires
            old(self).wf(),
        ensures
            final(self).wf(),
            final(self)@ == old(self)@.unlisted(p),
            final(self)@.temp_roots == old(self)@.temp_roots,
    {
        reveal(VmView::unlisted);
        let nil = self.nil();
        let list = self.field(p, PROCESS_MY_LIST as u64);
        if list == nil {
            return ;
        }
        let (hs, ts) = self.queue_slots_of(list);
        let mut prev = nil;
        let mut cur = self.field(list, hs as u64);
        let mut fuel: u64 = self.heap_words();
        let ghost v0 = self@;
        let ghost all = v0.spliced(
            list,
            hs as int,
            ts as int,
            p,
            prev,
            cur,
            fuel as nat,
        );
        while fuel > 0 && cur != nil && cur != p
            invariant
                all == v0.spliced(list, hs as int, ts as int, p, prev, cur, fuel as nat),
            decreases fuel,
        {
            let next = self.field(cur, PROCESS_NEXT_LINK as u64);
            prev = cur;
            cur = next;
            fuel = fuel - 1;
        }
        if fuel > 0 && cur != nil {
            let next = self.field(cur, PROCESS_NEXT_LINK as u64);
            if prev == nil {
                self.store_field(list, hs as u64, next);
            } else {
                self.store_field(prev, PROCESS_NEXT_LINK as u64, next);
            }
            if next == nil {
                self.store_field(list, ts as u64, prev);
            }
        }
        assert(self@ == all);
        self.store_field(p, PROCESS_NEXT_LINK as u64, nil);
        self.store_field(p, PROCESS_MY_LIST as u64, nil);
    }

    fn scheduler_queues(&self) -> (q: Value)
        requires
            self.wf(),
        ensures
            q == self@.run_queues(),
    {
        self.field(self.specials[SPECIAL_PROCESSOR], SCHEDULER_QUEUES as u64)
    }

    pub(crate) fn process_priority(&self, p: Value) -> (n: i64)
        requires
            self.wf(),
        ensures
            n == self@.priority(p),
    {
        self.int_field(p, PROCESS_PRIORITY as u64)
    }

    /// Append a process to the run queue of its priority.
    pub fn make_runnable(&mut self, p: Value)
        requires
            old(self).wf(),
        ensures
            final(self).wf(),
            final(self)@ == old(self)@.made_runnable(p),
            final(self)@.temp_roots == old(self)@.temp_roots,
    {
        reveal(VmView::made_runnable);
        let n: i64 = self.process_priority(p);
        let prio: u64 = if n < 1 {
            1
        } else if n > NUM_PRIORITIES as i64 {
            NUM_PRIORITIES as u64
        } else {
            n as u64
        };
        let q = self.field(self.scheduler_queues(), prio - 1);
        self.enqueue_process(q, LIST_HEAD, LIST_TAIL, p);
    }

    /// Take the process that is to run next out of its run queue.
    pub(crate) fn take_next_runnable(&mut self) -> (r: Option<Value>)
        requires
            old(self).wf(),
        ensures
            final(self).wf(),
            (final(self)@, r) == old(self)@.next_runnable(),
            final(self)@.temp_roots == old(self)@.temp_roots,
            r is None ==> final(self)@ == old(self)@,
    {
        let mut prio: u64 = NUM_PRIORITIES as u64;
        while prio > 0
            invariant
                self.wf(),
                prio <= NUM_PRIORITIES,
                self@ == old(self)@,
                old(self)@.next_runnable() == self@.next_below(prio as nat),
            decreases prio,
        {
            let q = self.field(self.scheduler_queues(), prio - 1);
            if let Some(p) = self.dequeue_process(q, LIST_HEAD, LIST_TAIL) {
                return Some(p);
            }
            prio = prio - 1;
        }
        None
    }

    /// The highest priority with a runnable process.
    pub(crate) fn runnable_priority_ceiling(&self) -> (r: Option<i64>)
        requires
            self.wf(),
        ensures
            r == self@.ceiling(),
    {
        let mut prio: u64 = NUM_PRIORITIES as u64;
        while prio > 0
            invariant
                self.wf(),
                prio <= NUM_PRIORITIES,
                self@.ceiling() == self@.ceiling_below(prio as nat),
            decreases prio,
        {
            let q = self.field(self.scheduler_queues(), prio - 1);
            if self.field(q, LIST_HEAD as u64) != self.nil() {
                return Some(prio as i64);
            }
            prio = prio - 1;
        }
        None
    }
}

// ---------------------------------------------------------------------------
// Semaphores and timers
// ---------------------------------------------------------------------------
impl VmView {
    /// One more signal kept for later.
    pub open spec fn excess_added(self, sem: Value) -> VmView {
        let n = self.int_field(sem, SEMAPHORE_EXCESS_SIGNALS as int);
        self.with_field(
            sem,
            SEMAPHORE_EXCESS_SIGNALS as int,
            crate::value::tag((n + 1) as i64),
        )
    }

    /// A signal without preemption: the first waiter becomes runnable, or the
    /// signal is kept.
    #[verifier::opaque]
    pub open spec fn signaled(self, sem: Value) -> VmView {
        let (v, p) = self.dequeued(
            sem,
            SEMAPHORE_QUEUE_HEAD as int,
            SEMAPHORE_QUEUE_TAIL as int,
        );
        match p {
            Some(p) => v.made_runnable(p),
            None => self.excess_added(sem),
        }
    }

    pub open spec fn signaled_all(self, list: Seq<Value>, i: int) -> VmView
        decreases list.len() - i,
    {
        if i < 0 || i >= list.len() {
            self
        } else {
            self.signaled(list[i]).signaled_all(list, i + 1)
        }
    }

    /// Milliseconds on the host's monotonic clock.
    pub open spec fn now_ms(self) -> i64 {
        (self.now_ns / 1000000) as i64
    }

    /// The timers that are due have fired: their requests are gone and their
    /// semaphores signaled, in the order of the requests.
    #[verifier::opaque]
    pub open spec fn timers_served(self) -> VmView {
        let now = self.now_ms();
        let n = self.timer_times.len() as int;
        VmView {
            timer_times: kept_times(self.timer_times, now, n),
            timer_sems: sems_where(self.timer_times, self.timer_sems, now, false, n),
            ..self
        }.signaled_all(sems_where(self.timer_times, self.timer_sems, now, true, n), 0)
    }

    /// Some timer is due.
    pub open spec fn timer_due(self) -> bool {
        exists|i: int| 0 <= i < self.timer_times.len() && #[trigger] self.timer_times[i]
            <= self.now_ms()
    }
}

/// The deadlines among the first `n` that are not reached.
pub open spec fn kept_times(times: Seq<i64>, now: i64, n: int) -> Seq<i64>
    decreases n,
{
    if n <= 0 {
        Seq::empty()
    } else {
        let rest = kept_times(times, now, n - 1);
        if times[n - 1] <= now {
            rest
        } else {
            rest.push(times[n - 1])
        }
    }
}

/// The semaphores among the first `n` requests whose deadline is reached, or
/// is not.
pub open spec fn sems_where(times: Seq<i64>, sems: Seq<Value>, now: i64, due: bool, n: int) -> Seq<
    Value,
>
    decreases n,
{
    if n <= 0 {
        Seq::empty()
    } else {
        let rest = sems_where(times, sems, now, due, n - 1);
        if (times[n - 1] <= now) == due {
            rest.push(sems[n - 1])
        } else {
            rest
        }
    }
}

impl Vm {
    pub(crate) fn add_excess(&mut self, sem: Value)
        requires
            old(self).wf(),
        ensures
            final(self).wf(),
            final(self)@ == old(self)@.excess_added(sem),
            final(self)@.temp_roots == old(self)@.temp_roots,
    {
        let n: i64 = self.int_field(sem, SEMAPHORE_EXCESS_SIGNALS as u64);
        self.set_field(sem, SEMAPHORE_EXCESS_SIGNALS as u64, Value::tagged(n + 1));
    }

    /// Signal without preemption.
    pub fn semaphore_signal_internal(&mut self, sem: Value)
        requires
            old(self).wf(),
        ensures
            final(self).wf(),
            final(self)@ == old(self)@.signaled(sem),
            final(self)@.temp_roots == old(self)@.temp_roots,
    {
        reveal(VmView::signaled);
        if let Some(p) = self.dequeue_process(sem, SEMAPHORE_QUEUE_HEAD, SEMAPHORE_QUEUE_TAIL) {
            self.make_runnable(p);
        } else {
            self.add_excess(sem);
        }
    }

    /// Fire the timers that are due; whether there was one.
    #[verifier::loop_isolation(false)]
    #[verifier::rlimit(60)]
    pub fn service_timers(&mut self) -> (fired: bool)
        requires
            old(self).wf(),
        ensures
            final(self).wf(),
            final(self)@ == old(self)@.timers_served(),
            fired == old(self)@.timer_due(),
            final(self)@.temp_roots == old(self)@.temp_roots,
    {
        reveal(VmView::timers_served);
        let ghost v0 = self@;
        let now: i64 = (self.now_ns / 1000000) as i64;
        let mut keep_t: Vec<i64> = Vec::new();
        let mut keep_s: Vec<Value> = Vec::new();
        let mut fire: Vec<Value> = Vec::new();
        let mut i: usize = 0;
        while i < self.timer_times.len()
            invariant
                i <= v0.timer_times.len(),
                keep_t@ == kept_times(v0.timer_times, now, i as int),
                keep_s@ == sems_where(v0.timer_times, v0.timer_sems, now, false, i as int),
                keep_t@.len() == keep_s@.len(),
                fire@ == sems_where(v0.timer_times, v0.timer_sems, now, true, i as int),
                (fire@.len() > 0) == (exists|j: int|
                    0 <= j < i && #[trigger] v0.timer_times[j] <= now),
            decreases v0.timer_times.len() - i,
        {
            if self.timer_times[i] <= now {
                fire.push(self.timer_sems[i]);
                assert(v0.timer_times[i as int] <= now);
            } else {
                keep_t.push(self.timer_times[i]);
                keep_s.push(self.timer_sems[i]);
            }
            i = i + 1;
        }
        self.timer_times = keep_t;
        self.timer_sems = keep_s;
        let ghost v1 = self@;
        let mut k: usize = 0;
        while k < fire.len()
            invariant
                k <= fire@.len(),
                self.wf(),
                self@.temp_roots == v0.temp_roots,
                v1.signaled_all(fire@, 0) == self@.signaled_all(fire@, k as int),
            decreases fire@.len() - k,
        {
            self.semaphore_signal_internal(fire[k]);
            k = k + 1;
        }
        fire.len() > 0
    }
}

} // verus!
