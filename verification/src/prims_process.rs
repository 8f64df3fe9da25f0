//! Primitives on processes, semaphores and timers.

use crate::counters::CountersView;
use crate::machine::{offset_from, Machine, Pending, Regs};
use crate::prims::{FAIL_NOT_FOUND, FAIL_UNSUPPORTED_CONTEXT, FAIL_WRONG_TYPE};
use crate::requests::{Outcome, PrimOutcome};
use crate::value::Value;
use crate::vm::{fatal, Fault, Vm, VmError, VmView};
use crate::treaty::{
    CLASS_ARRAY, CLASS_PROCESS, CLASS_SEMAPHORE, CLASS_STACK, FMT_PTRS, FRAME_CALLER, FRAME_FLAGS,
    FRAME_METHOD, FRAME_RECEIVER, FRAME_RETINFO, PROCESS_FRAME_OFFSET, PROCESS_MY_LIST,
    PROCESS_PC, PROCESS_SERIAL_COUNTER, PROCESS_STACK, RETINFO_PC_SHIFT, SEMAPHORE_EXCESS_SIGNALS,
    SEMAPHORE_QUEUE_HEAD, SEMAPHORE_QUEUE_TAIL, SERIAL_SHIFT, SPECIAL_TERMINATE_TRAMPOLINE,
    STACK_FRAMES_BASE,
};
use vstd::prelude::*;

verus! {

impl Machine {
    pub open spec fn idled(self) -> Machine {
        Machine { regs: Regs { pending: Pending::Idle, ..self.regs }, ..self }
    }

    /// The running process gives up the processor: the next runnable process
    /// runs, or the machine idles until a timer is due.
    #[verifier::opaque]
    pub open spec fn relinquished(self) -> Result<Machine, Fault> {
        let (v, p) = self.vm.next_runnable();
        match p {
            Some(p) => Ok(self.on(v).switched(p)),
            None => if self.vm.timer_times.len() == 0 {
                Err(
                    Fault::Fatal(
                        "deadlock: no runnable process and no pending timers"@,
                        self.vm,
                    ),
                )
            } else {
                Ok(self.idled())
            },
        }
    }

    #[verifier::opaque]
    pub open spec fn prim_transfer_to(self, r: int) -> Result<(Machine, Outcome), Fault> {
        let target = self.get(r);
        if !self.vm.is_a(target, CLASS_PROCESS) || self.vm.field(target, PROCESS_STACK as int)
            == self.vm.nil() {
            self.fails(FAIL_WRONG_TYPE)
        } else {
            Ok((self.switched(target), Outcome::Control))
        }
    }

    #[verifier::opaque]
    pub open spec fn prim_wait(self, r: int) -> Result<(Machine, Outcome), Fault> {
        let sem = self.get(r);
        let n = self.vm.int_field(sem, SEMAPHORE_EXCESS_SIGNALS as int);
        if !self.vm.is_a(sem, CLASS_SEMAPHORE) {
            self.fails(FAIL_WRONG_TYPE)
        } else if n > 0 {
            self.on(
                self.vm.with_field(
                    sem,
                    SEMAPHORE_EXCESS_SIGNALS as int,
                    crate::value::tag((n - 1) as i64),
                ),
            ).gives(sem)
        } else {
            let v = VmView {
                ctr: CountersView {
                    semaphore_blocks: self.vm.ctr.semaphore_blocks.wrapping_add(1),
                    ..self.vm.ctr
                },
                ..self.vm
            }.saved(self.regs);
            Machine::controls(
                self.on(
                    v.enqueued(
                        sem,
                        SEMAPHORE_QUEUE_HEAD as int,
                        SEMAPHORE_QUEUE_TAIL as int,
                        v.active,
                    ),
                ).relinquished(),
            )
        }
    }

    /// A process made runnable, or run at once when it outranks the running
    /// one.
    pub open spec fn readied(self, p: Value, result: Value) -> Result<(Machine, Outcome), Fault> {
        if self.vm.priority(p) > self.vm.priority(self.vm.active) {
            Ok((self.on(self.vm.made_runnable(self.vm.active)).switched(p), Outcome::Control))
        } else {
            self.on(self.vm.made_runnable(p)).gives(result)
        }
    }

    #[verifier::opaque]
    pub open spec fn prim_signal(self, r: int) -> Result<(Machine, Outcome), Fault> {
        let sem = self.get(r);
        if !self.vm.is_a(sem, CLASS_SEMAPHORE) {
            self.fails(FAIL_WRONG_TYPE)
        } else {
            let (v, p) = self.vm.dequeued(
                sem,
                SEMAPHORE_QUEUE_HEAD as int,
                SEMAPHORE_QUEUE_TAIL as int,
            );
            match p {
                Some(p) => self.on(v).readied(p, sem),
                None => self.on(self.vm.excess_added(sem)).gives(sem),
            }
        }
    }

    #[verifier::opaque]
    pub open spec fn prim_yield(self, r: int) -> Result<(Machine, Outcome), Fault> {
        let cur = self.vm.active;
        let m = self.on(self.vm.made_runnable(cur));
        let (v, p) = m.vm.next_runnable();
        match p {
            Some(p) => if p == cur {
                let m1 = m.on(v.with_field(cur, PROCESS_MY_LIST as int, v.nil()));
                m1.gives(m1.get(r))
            } else {
                Ok((m.on(v).switched(p), Outcome::Control))
            },
            None => Machine::controls(m.relinquished()),
        }
    }

    #[verifier::opaque]
    pub open spec fn prim_resume(self, r: int) -> Result<(Machine, Outcome), Fault> {
        let p = self.get(r);
        let nil = self.vm.nil();
        if !self.vm.is_a(p, CLASS_PROCESS) || p == self.vm.active || self.vm.field(
            p,
            PROCESS_STACK as int,
        ) == nil || self.vm.field(p, PROCESS_MY_LIST as int) != nil {
            self.fails(FAIL_WRONG_TYPE)
        } else {
            self.readied(p, p)
        }
    }

    #[verifier::opaque]
    pub open spec fn prim_suspend(self, r: int) -> Result<(Machine, Outcome), Fault> {
        let p = self.get(r);
        if !self.vm.is_a(p, CLASS_PROCESS) {
            self.fails(FAIL_WRONG_TYPE)
        } else if p == self.vm.active {
            Machine::controls(self.saved().relinquished())
        } else {
            self.on(self.vm.unlisted(p)).gives(p)
        }
    }

    #[verifier::opaque]
    pub open spec fn prim_signal_at(self, r: int) -> Result<(Machine, Outcome), Fault> {
        let sem = self.get(r + 1);
        let ms = self.get(r + 2);
        if !self.vm.is_a(sem, CLASS_SEMAPHORE) || !ms.tagged_int() {
            self.fails(FAIL_WRONG_TYPE)
        } else {
            let m = self.on(
                VmView {
                    timer_times: self.vm.timer_times.push(ms.int_value()),
                    timer_sems: self.vm.timer_sems.push(sem),
                    safepoint: crate::profile::SafepointShared {
                        armed: true,
                        ..self.vm.safepoint
                    },
                    ..self.vm
                },
            );
            m.gives(m.get(r))
        }
    }
}

impl VmView {
    /// A call of the terminate trampoline pushed on a process that does not
    /// run, above its frame at `off`, and the process made runnable.
    #[verifier::opaque]
    pub open spec fn doomed(self, p: Value, off: u64, pc: i64) -> VmView {
        let tramp = self.specials[SPECIAL_TERMINATE_TRAMPOLINE as int];
        let stack = self.field(p, PROCESS_STACK as int);
        let method = self.field(stack, off + FRAME_METHOD);
        let new = off + FRAME_RECEIVER + crate::vm::mh_frame_slots(self.method_bits(method));
        let fs = crate::vm::mh_frame_slots(self.method_bits(tramp));
        let cur = self.int_field(p, PROCESS_SERIAL_COUNTER as int);
        let serial: i64 = if cur >= 1073741823 {
            1
        } else {
            (cur + 1) as i64
        };
        self.with_field(p, PROCESS_SERIAL_COUNTER as int, crate::value::tag(serial)).with_stored(
            stack,
            new + FRAME_CALLER,
            crate::value::tag(off as i64),
        ).with_stored(
            stack,
            new + FRAME_RETINFO,
            crate::value::tag((pc << 8u32) as i64),
        ).with_stored(stack, new + FRAME_METHOD, tramp).with_stored(
            stack,
            new + FRAME_FLAGS,
            crate::value::tag((serial << 32u32) as i64),
        ).with_stored(stack, new + FRAME_RECEIVER, p).nilled(
            stack,
            new + FRAME_RECEIVER + 1,
            new + FRAME_RECEIVER + fs,
        ).with_field(
            p,
            PROCESS_FRAME_OFFSET as int,
            crate::value::tag(new as i64),
        ).with_field(p, PROCESS_PC as int, crate::value::tag(0)).unlisted(p).made_runnable(p)
    }
}

impl Machine {
    /// A stack of a process that does not run moved to a larger object.
    #[verifier::opaque]
    pub open spec fn other_restacked(self, p: Value, cur: int, new: int) -> Result<
        (Machine, Value),
        Fault,
    > {
        let m0 = self.on(VmView { temp_roots: self.vm.temp_roots.push(p), ..self.vm });
        match m0.allocated(CLASS_STACK, FMT_PTRS, new) {
            Err(f) => Err(f),
            Ok((m, stack)) => {
                let q = m.vm.temp_roots.last();
                let v = VmView { temp_roots: m.vm.temp_roots.drop_last(), ..m.vm };
                Ok(
                    (
                        m.on(
                            v.copied(
                                v.field(q, PROCESS_STACK as int),
                                stack,
                                0,
                                cur,
                            ).with_stored(q, PROCESS_STACK as int, stack).stack_remembered(stack),
                        ),
                        q,
                    ),
                )
            },
        }
    }

    /// A process only ever unwinds itself: the running one unwinds to its
    /// base frame, another is made to do so when it runs next.
    #[verifier::opaque]
    pub open spec fn prim_terminate(self, r: int) -> Result<(Machine, Outcome), Fault> {
        let nil = self.vm.nil();
        let p = self.get(r);
        let stack = self.vm.field(p, PROCESS_STACK as int);
        let tramp = self.vm.specials[SPECIAL_TERMINATE_TRAMPOLINE as int];
        let off = crate::machine::offset_of(self.vm.int_field(p, PROCESS_FRAME_OFFSET as int));
        let pc = self.vm.int_field(p, PROCESS_PC as int);
        let method = self.vm.field(stack, off + FRAME_METHOD);
        let needed = off + FRAME_RECEIVER + crate::vm::mh_frame_slots(
            self.vm.method_bits(method),
        ) + FRAME_RECEIVER + crate::vm::mh_frame_slots(self.vm.method_bits(tramp));
        let cur = self.vm.slots(stack);
        if !self.vm.is_a(p, CLASS_PROCESS) {
            self.fails(FAIL_WRONG_TYPE)
        } else if p == self.vm.active {
            Machine::controls(self.unwound(STACK_FRAMES_BASE as u64, nil))
        } else if stack == nil {
            self.gives(p)
        } else if !tramp.tagged_ptr() || tramp == nil {
            self.fails(FAIL_UNSUPPORTED_CONTEXT)
        } else if needed <= cur {
            self.on(self.vm.doomed(p, off, pc)).gives(p)
        } else if cur <= 0 {
            Err(Fault::Fatal("malformed stack"@, self.vm))
        } else if 8 * crate::frames::doubled(2 * cur, needed) > self.vm.max_stack_bytes {
            self.fails(FAIL_UNSUPPORTED_CONTEXT)
        } else {
            match self.other_restacked(p, cur, crate::frames::doubled(2 * cur, needed)) {
                Err(f) => Err(f),
                Ok((m, q)) => m.on(m.vm.doomed(q, off, pc)).gives(q),
            }
        }
    }

    /// The instruction at which the frame at `o` resumes: it is in the return
    /// information of the frame it called, which the chain from `f` down
    /// leads to.
    pub open spec fn resume_pc(self, stack: Value, f: u64, o: u64) -> Value
        decreases f,
    {
        let caller = self.vm.field(stack, f + FRAME_CALLER);
        let c = crate::machine::offset_of(caller.int_value());
        if f <= o || !caller.tagged_int() || caller.int_value() == 0 {
            self.vm.nil()
        } else if c == o {
            let ri = self.vm.field(stack, f + FRAME_RETINFO);
            if ri.tagged_int() {
                crate::value::tag((ri.int_value() >> 8u32) as i64)
            } else {
                self.vm.nil()
            }
        } else if c >= f {
            self.vm.nil()
        } else {
            self.resume_pc(stack, c, o)
        }
    }

    /// Frame slots `k..n` of the frame at `o` copied to an array.
    pub open spec fn frame_copied(self, stack: Value, o: u64, arr: Value, k: int, n: int) -> Machine
        decreases n - k,
    {
        if k >= n {
            self
        } else {
            self.on(
                self.vm.with_field(
                    arr,
                    2 + k,
                    self.vm.field(stack, o + FRAME_RECEIVER + k),
                ),
            ).frame_copied(stack, o, arr, k + 1, n)
        }
    }

    /// A frame as an Array: method, resumption point, receiver and slots.
    #[verifier::opaque]
    pub open spec fn prim_frame_info(self, r: int) -> Result<(Machine, Outcome), Fault> {
        let process = self.get(r + 1);
        let off = self.get(r + 2);
        let nil = self.vm.nil();
        let o = crate::machine::offset_of(off.int_value());
        let method = self.vm.field(
            self.vm.field(process, PROCESS_STACK as int),
            o + FRAME_METHOD,
        );
        let fs = crate::vm::mh_frame_slots(self.vm.method_bits(method));
        if !process.tagged_ptr() || !off.tagged_int() {
            self.fails(FAIL_WRONG_TYPE)
        } else if self.vm.field(process, PROCESS_STACK as int) == nil {
            self.fails(FAIL_NOT_FOUND)
        } else if !method.tagged_ptr() || method == nil {
            self.fails(FAIL_NOT_FOUND)
        } else {
            match self.allocated(CLASS_ARRAY, FMT_PTRS, 2 + fs) {
                Err(f) => Err(f),
                Ok((m, arr)) => {
                    let stack = m.vm.field(process, PROCESS_STACK as int);
                    let saved = m.vm.field(process, PROCESS_FRAME_OFFSET as int);
                    let top = crate::machine::offset_of(saved.int_value());
                    let pc = if !saved.tagged_int() {
                        m.vm.nil()
                    } else if top == o {
                        m.vm.field(process, PROCESS_PC as int)
                    } else {
                        m.resume_pc(stack, top, o)
                    };
                    m.on(
                        m.vm.with_field(arr, 0, m.vm.field(stack, o + FRAME_METHOD)).with_field(
                            arr,
                            1,
                            pc,
                        ),
                    ).frame_copied(stack, o, arr, 0, fs).gives(arr)
                },
            }
        }
    }
}

impl Vm {
    /// Let the next runnable process run, or idle until a timer is due.
    pub(crate) fn relinquish(&mut self, regs: &mut Regs) -> (r: Result<(), VmError>)
        requires
            old(self).wf(),
            old(regs).ok(),
        ensures
            final(self).wf(),
            final(regs).ok(),
            crate::machine::ran(
                r,
                crate::machine::at(final(self)@, *final(regs)),
                crate::machine::at(old(self)@, *old(regs)).relinquished(),
            ),
            r is Ok ==> final(self)@.temp_roots == old(self)@.temp_roots,
            final(self)@.temp_roots.len() >= old(self)@.temp_roots.len(),
    {
        reveal(Machine::relinquished);
        match self.take_next_runnable() {
            Some(p) => {
                self.transfer_to(regs, p);
                Ok(())
            },
            None => {
                if self.timer_times.len() == 0 {
                    return fatal("deadlock: no runnable process and no pending timers");
                }
                regs.pending = Pending::Idle;
                Ok(())
            },
        }
    }

    pub(crate) fn prim_transfer_to(&mut self, regs: &mut Regs, r: u64) -> (res: Result<
        PrimOutcome,
        VmError,
    >)
        requires
            old(self).wf(),
            old(regs).ok(),
            r <= 255,
        ensures
            final(self).wf(),
            final(regs).ok(),
            crate::prims::prim_ran(
                res,
                crate::machine::at(final(self)@, *final(regs)),
                crate::machine::at(old(self)@, *old(regs)).prim_transfer_to(r as int),
            ),
            res is Ok ==> final(self)@.temp_roots.len() == old(self)@.temp_roots.len(),
            final(self)@.temp_roots.len() >= old(self)@.temp_roots.len(),
    {
        reveal(Machine::prim_transfer_to);
        let target = self.get(regs, r);
        if !self.is_a(target, CLASS_PROCESS) || self.field(target, PROCESS_STACK as u64) == self.nil() {
            return Ok(PrimOutcome::Fail(FAIL_WRONG_TYPE));
        }
        self.transfer_to(regs, target);
        Ok(PrimOutcome::Control)
    }

    pub(crate) fn prim_semaphore_wait(&mut self, regs: &mut Regs, r: u64) -> (res: Result<
        PrimOutcome,
        VmError,
    >)
        requires
            old(self).wf(),
            old(regs).ok(),
            r <= 255,
        ensures
            final(self).wf(),
            final(regs).ok(),
            crate::prims::prim_ran(
                res,
                crate::machine::at(final(self)@, *final(regs)),
                crate::machine::at(old(self)@, *old(regs)).prim_wait(r as int),
            ),
            res is Ok ==> final(self)@.temp_roots.len() == old(self)@.temp_roots.len(),
            final(self)@.temp_roots.len() >= old(self)@.temp_roots.len(),
    {
        reveal(Machine::prim_wait);
        let sem = self.get(regs, r);
        if !self.is_a(sem, CLASS_SEMAPHORE) {
            return Ok(PrimOutcome::Fail(FAIL_WRONG_TYPE));
        }
        let n: i64 = self.int_field(sem, SEMAPHORE_EXCESS_SIGNALS as u64);
        if n > 0 {
            self.set_field(sem, SEMAPHORE_EXCESS_SIGNALS as u64, Value::tagged(n - 1));
            return Ok(PrimOutcome::Value(sem));
        }
        self.counters.semaphore_blocks = self.counters.semaphore_blocks.wrapping_add(1);
        self.save_regs(regs);
        let cur = self.active_process;
        self.enqueue_process(sem, SEMAPHORE_QUEUE_HEAD, SEMAPHORE_QUEUE_TAIL, cur);
        self.relinquish(regs)?;
        Ok(PrimOutcome::Control)
    }

    fn ready(&mut self, regs: &mut Regs, p: Value, result: Value) -> (res: Result<
        PrimOutcome,
        VmError,
    >)
        requires
            old(self).wf(),
            old(regs).ok(),
        ensures
            final(self).wf(),
            final(regs).ok(),
            crate::prims::prim_ran(
                res,
                crate::machine::at(final(self)@, *final(regs)),
                crate::machine::at(old(self)@, *old(regs)).readied(p, result),
            ),
            res is Ok ==> final(self)@.temp_roots.len() == old(self)@.temp_roots.len(),
            final(self)@.temp_roots.len() >= old(self)@.temp_roots.len(),
    {
        let cur = self.active_process;
        if self.process_priority(p) > self.process_priority(cur) {
            self.make_runnable(cur);
            self.transfer_to(regs, p);
            return Ok(PrimOutcome::Control);
        }
        self.make_runnable(p);
        Ok(PrimOutcome::Value(result))
    }

    pub(crate) fn prim_semaphore_signal(&mut self, regs: &mut Regs, r: u64) -> (res: Result<
        PrimOutcome,
        VmError,
    >)
        requires
            old(self).wf(),
            old(regs).ok(),
            r <= 255,
        ensures
            final(self).wf(),
            final(regs).ok(),
            crate::prims::prim_ran(
                res,
                crate::machine::at(final(self)@, *final(regs)),
                crate::machine::at(old(self)@, *old(regs)).prim_signal(r as int),
            ),
            res is Ok ==> final(self)@.temp_roots.len() == old(self)@.temp_roots.len(),
            final(self)@.temp_roots.len() >= old(self)@.temp_roots.len(),
    {
        reveal(Machine::prim_signal);
        let sem = self.get(regs, r);
        if !self.is_a(sem, CLASS_SEMAPHORE) {
            return Ok(PrimOutcome::Fail(FAIL_WRONG_TYPE));
        }
        match self.dequeue_process(sem, SEMAPHORE_QUEUE_HEAD, SEMAPHORE_QUEUE_TAIL) {
            Some(p) => self.ready(regs, p, sem),
            None => {
                self.add_excess(sem);
                Ok(PrimOutcome::Value(sem))
            },
        }
    }

    pub(crate) fn prim_yield(&mut self, regs: &mut Regs, r: u64) -> (res: Result<
        PrimOutcome,
        VmError,
    >)
        requires
            old(self).wf(),
            old(regs).ok(),
            r <= 255,
        ensures
            final(self).wf(),
            final(regs).ok(),
            crate::prims::prim_ran(
                res,
                crate::machine::at(final(self)@, *final(regs)),
                crate::machine::at(old(self)@, *old(regs)).prim_yield(r as int),
            ),
            res is Ok ==> final(self)@.temp_roots.len() == old(self)@.temp_roots.len(),
            final(self)@.temp_roots.len() >= old(self)@.temp_roots.len(),
    {
        reveal(Machine::prim_yield);
        let cur = self.active_process;
        self.make_runnable(cur);
        match self.take_next_runnable() {
            Some(p) => {
                if p == cur {
                    let nil = self.nil();
                    self.set_field(cur, PROCESS_MY_LIST as u64, nil);
                    return Ok(PrimOutcome::Value(self.get(regs, r)));
                }
                self.transfer_to(regs, p);
                Ok(PrimOutcome::Control)
            },
            None => {
                self.relinquish(regs)?;
                Ok(PrimOutcome::Control)
            },
        }
    }

    pub(crate) fn prim_process_resume(&mut self, regs: &mut Regs, r: u64) -> (res: Result<
        PrimOutcome,
        VmError,
    >)
        requires
            old(self).wf(),
            old(regs).ok(),
            r <= 255,
        ensures
            final(self).wf(),
            final(regs).ok(),
            crate::prims::prim_ran(
                res,
                crate::machine::at(final(self)@, *final(regs)),
                crate::machine::at(old(self)@, *old(regs)).prim_resume(r as int),
            ),
            res is Ok ==> final(self)@.temp_roots.len() == old(self)@.temp_roots.len(),
            final(self)@.temp_roots.len() >= old(self)@.temp_roots.len(),
    {
        reveal(Machine::prim_resume);
        let p = self.get(regs, r);
        let nil = self.nil();
        if !self.is_a(p, CLASS_PROCESS) || p == self.active_process || self.field(
            p,
            PROCESS_STACK as u64,
        ) == nil || self.field(p, PROCESS_MY_LIST as u64) != nil {
            return Ok(PrimOutcome::Fail(FAIL_WRONG_TYPE));
        }
        self.ready(regs, p, p)
    }

    pub(crate) fn prim_process_suspend(&mut self, regs: &mut Regs, r: u64) -> (res: Result<
        PrimOutcome,
        VmError,
    >)
        requires
            old(self).wf(),
            old(regs).ok(),
            r <= 255,
        ensures
            final(self).wf(),
            final(regs).ok(),
            crate::prims::prim_ran(
                res,
                crate::machine::at(final(self)@, *final(regs)),
                crate::machine::at(old(self)@, *old(regs)).prim_suspend(r as int),
            ),
            res is Ok ==> final(self)@.temp_roots.len() == old(self)@.temp_roots.len(),
            final(self)@.temp_roots.len() >= old(self)@.temp_roots.len(),
    {
        reveal(Machine::prim_suspend);
        let p = self.get(regs, r);
        if !self.is_a(p, CLASS_PROCESS) {
            return Ok(PrimOutcome::Fail(FAIL_WRONG_TYPE));
        }
        if p == self.active_process {
            self.save_regs(regs);
            self.relinquish(regs)?;
            return Ok(PrimOutcome::Control);
        }
        self.remove_process_from_its_list(p);
        Ok(PrimOutcome::Value(p))
    }

    pub(crate) fn prim_signal_at(&mut self, regs: &mut Regs, r: u64) -> (res: Result<
        PrimOutcome,
        VmError,
    >)
        requires
            old(self).wf(),
            old(regs).ok(),
            r <= 255,
        ensures
            final(self).wf(),
            final(regs).ok(),
            crate::prims::prim_ran(
                res,
                crate::machine::at(final(self)@, *final(regs)),
                crate::machine::at(old(self)@, *old(regs)).prim_signal_at(r as int),
            ),
            res is Ok ==> final(self)@.temp_roots.len() == old(self)@.temp_roots.len(),
            final(self)@.temp_roots.len() >= old(self)@.temp_roots.len(),
    {
        reveal(Machine::prim_signal_at);
        let sem = self.get(regs, r + 1);
        let ms = self.get(regs, r + 2);
        if !self.is_a(sem, CLASS_SEMAPHORE) || !ms.is_int() {
            return Ok(PrimOutcome::Fail(FAIL_WRONG_TYPE));
        }
        self.timer_times.push(ms.as_int());
        self.timer_sems.push(sem);
        self.safepoint = crate::profile::SafepointShared {
            armed: true,
            sample_due: self.safepoint.sample_due,
        };
        Ok(PrimOutcome::Value(self.get(regs, r)))
    }

    fn doom(&mut self, p: Value, off: u64, pc: i64)
        requires
            old(self).wf(),
            off <= crate::machine::OFFSET_LIMIT,
        ensures
            final(self).wf(),
            final(self)@ == old(self)@.doomed(p, off, pc),
            final(self)@.temp_roots == old(self)@.temp_roots,
    {
        reveal(VmView::doomed);
        let tramp = self.specials[SPECIAL_TERMINATE_TRAMPOLINE];
        let stack = self.field(p, PROCESS_STACK as u64);
        let method = self.field(stack, off + FRAME_METHOD as u64);
        let new: u64 = off + FRAME_RECEIVER as u64 + self.frame_slots_of(method);
        let fs: u64 = self.frame_slots_of(tramp);
        let cur: i64 = self.int_field(p, PROCESS_SERIAL_COUNTER as u64);
        let serial: i64 = if cur >= 1073741823 {
            1
        } else {
            cur + 1
        };
        self.set_field(p, PROCESS_SERIAL_COUNTER as u64, Value::tagged(serial));
        self.store_field(stack, new + FRAME_CALLER as u64, Value::tagged(off as i64));
        self.store_field(
            stack,
            new + FRAME_RETINFO as u64,
            Value::tagged(pc << RETINFO_PC_SHIFT),
        );
        self.store_field(stack, new + FRAME_METHOD as u64, tramp);
        self.store_field(stack, new + FRAME_FLAGS as u64, Value::tagged(serial << SERIAL_SHIFT));
        self.store_field(stack, new + FRAME_RECEIVER as u64, p);
        self.nil_slots(
            stack,
            new + FRAME_RECEIVER as u64 + 1,
            new + FRAME_RECEIVER as u64 + fs,
        );
        self.set_field(p, PROCESS_FRAME_OFFSET as u64, Value::tagged(new as i64));
        self.set_field(p, PROCESS_PC as u64, Value::tagged(0));
        self.remove_process_from_its_list(p);
        self.make_runnable(p);
    }

    fn restack_other(&mut self, regs: &mut Regs, p: Value, cur: u64, new: usize) -> (r: Result<
        Value,
        VmError,
    >)
        requires
            old(self).wf(),
            old(regs).ok(),
        ensures
            final(self).wf(),
            final(regs).ok(),
            crate::machine::gave(
                r,
                crate::machine::at(final(self)@, *final(regs)),
                crate::machine::at(old(self)@, *old(regs)).other_restacked(
                    p,
                    cur as int,
                    new as int,
                ),
            ),
            r is Ok ==> final(self)@.temp_roots.len() == old(self)@.temp_roots.len(),
            final(self)@.temp_roots.len() >= old(self)@.temp_roots.len(),
    {
        reveal(Machine::other_restacked);
        self.temp_roots.push(p);
        let stack = self.alloc_gc(regs, CLASS_STACK, FMT_PTRS, new)?;
        let ghost t = self@.temp_roots;
        let n: usize = self.temp_roots.len();
        let q = self.temp_roots[n - 1];
        self.temp_roots = crate::gc::copy_range(&self.temp_roots, 0, n - 1);
        assert(self@.temp_roots =~= t.drop_last());
        let from = self.field(q, PROCESS_STACK as u64);
        self.copy_slots(from, stack, cur);
        self.store_field(q, PROCESS_STACK as u64, stack);
        self.remember_stack(stack);
        Ok(q)
    }

    pub(crate) fn prim_process_terminate(&mut self, regs: &mut Regs, r: u64) -> (res: Result<
        PrimOutcome,
        VmError,
    >)
        requires
            old(self).wf(),
            old(regs).ok(),
            r <= 255,
        ensures
            final(self).wf(),
            final(regs).ok(),
            crate::prims::prim_ran(
                res,
                crate::machine::at(final(self)@, *final(regs)),
                crate::machine::at(old(self)@, *old(regs)).prim_terminate(r as int),
            ),
            res is Ok ==> final(self)@.temp_roots.len() == old(self)@.temp_roots.len(),
            final(self)@.temp_roots.len() >= old(self)@.temp_roots.len(),
    {
        reveal(Machine::prim_terminate);
        let nil = self.nil();
        let p = self.get(regs, r);
        if !self.is_a(p, CLASS_PROCESS) {
            return Ok(PrimOutcome::Fail(FAIL_WRONG_TYPE));
        }
        if p == self.active_process {
            self.unwind_and_return_from(regs, STACK_FRAMES_BASE as u64, nil)?;
            return Ok(PrimOutcome::Control);
        }
        let stack = self.field(p, PROCESS_STACK as u64);
        if stack == nil {
            return Ok(PrimOutcome::Value(p));
        }
        let tramp = self.specials[SPECIAL_TERMINATE_TRAMPOLINE];
        if !tramp.is_ptr() || tramp == nil {
            return Ok(PrimOutcome::Fail(FAIL_UNSUPPORTED_CONTEXT));
        }
        let off: u64 = offset_from(self.int_field(p, PROCESS_FRAME_OFFSET as u64));
        let pc: i64 = self.int_field(p, PROCESS_PC as u64);
        let method = self.field(stack, off + FRAME_METHOD as u64);
        let needed: u64 = off + FRAME_RECEIVER as u64 + self.frame_slots_of(method)
            + FRAME_RECEIVER as u64 + self.frame_slots_of(tramp);
        let cur: u64 = self.slots(stack);
        if needed <= cur {
            self.doom(p, off, pc);
            return Ok(PrimOutcome::Value(p));
        }
        if cur == 0 {
            return fatal("malformed stack");
        }
        match crate::frames::grown_size(cur, needed, self.max_stack_bytes) {
            None => Ok(PrimOutcome::Fail(FAIL_UNSUPPORTED_CONTEXT)),
            Some(new) => {
                let q = self.restack_other(regs, p, cur, new)?;
                self.doom(q, off, pc);
                Ok(PrimOutcome::Value(q))
            },
        }
    }

    fn resume_pc(&self, regs: &Regs, stack: Value, top: u64, o: u64) -> (v: Value)
        requires
            self.wf(),
            top <= crate::machine::OFFSET_LIMIT,
        ensures
            v == crate::machine::at(self@, *regs).resume_pc(stack, top, o),
    {
        let mut f: u64 = top;
        while f > o
            invariant
                self.wf(),
                f <= crate::machine::OFFSET_LIMIT,
                crate::machine::at(self@, *regs).resume_pc(stack, top, o) == crate::machine::at(
                    self@,
                    *regs,
                ).resume_pc(stack, f, o),
            decreases f,
        {
            let caller = self.field(stack, f + FRAME_CALLER as u64);
            if !caller.is_int() || caller.as_int() == 0 {
                return self.nil();
            }
            let c: u64 = offset_from(caller.as_int());
            if c == o {
                let ri = self.field(stack, f + FRAME_RETINFO as u64);
                if ri.is_int() {
                    return Value::tagged(ri.as_int() >> RETINFO_PC_SHIFT);
                }
                return self.nil();
            }
            if c >= f {
                return self.nil();
            }
            f = c;
        }
        self.nil()
    }

    fn copy_frame(&mut self, regs: &Regs, stack: Value, o: u64, arr: Value, n: u64)
        requires
            old(self).wf(),
            o <= crate::machine::OFFSET_LIMIT,
            n <= 255,
        ensures
            final(self).wf(),
            crate::machine::at(final(self)@, *regs) == crate::machine::at(
                old(self)@,
                *regs,
            ).frame_copied(stack, o, arr, 0, n as int),
            final(self)@.temp_roots == old(self)@.temp_roots,
    {
        let mut k: u64 = 0;
        while k < n
            invariant
                k <= n <= 255,
                o <= crate::machine::OFFSET_LIMIT,
                self.wf(),
                self@.temp_roots == old(self)@.temp_roots,
                crate::machine::at(old(self)@, *regs).frame_copied(stack, o, arr, 0, n as int)
                    == crate::machine::at(self@, *regs).frame_copied(
                    stack,
                    o,
                    arr,
                    k as int,
                    n as int,
                ),
            decreases n - k,
        {
            let v = self.field(stack, o + FRAME_RECEIVER as u64 + k);
            self.set_field(arr, 2 + k, v);
            k = k + 1;
        }
    }

    pub(crate) fn prim_frame_info(&mut self, regs: &mut Regs, r: u64) -> (res: Result<
        PrimOutcome,
        VmError,
    >)
        requires
            old(self).wf(),
            old(regs).ok(),
            r <= 255,
        ensures
            final(self).wf(),
            final(regs).ok(),
            crate::prims::prim_ran(
                res,
                crate::machine::at(final(self)@, *final(regs)),
                crate::machine::at(old(self)@, *old(regs)).prim_frame_info(r as int),
            ),
            res is Ok ==> final(self)@.temp_roots.len() == old(self)@.temp_roots.len(),
            final(self)@.temp_roots.len() >= old(self)@.temp_roots.len(),
    {
        reveal(Machine::prim_frame_info);
        let process = self.get(regs, r + 1);
        let off = self.get(regs, r + 2);
        if !process.is_ptr() || !off.is_int() {
            return Ok(PrimOutcome::Fail(FAIL_WRONG_TYPE));
        }
        let nil = self.nil();
        let stack0 = self.field(process, PROCESS_STACK as u64);
        if stack0 == nil {
            return Ok(PrimOutcome::Fail(FAIL_NOT_FOUND));
        }
        let o: u64 = offset_from(off.as_int());
        let method = self.field(stack0, o + FRAME_METHOD as u64);
        if !method.is_ptr() || method == nil {
            return Ok(PrimOutcome::Fail(FAIL_NOT_FOUND));
        }
        let fs: u64 = self.frame_slots_of(method);
        let arr = self.alloc_gc(regs, CLASS_ARRAY, FMT_PTRS, 2 + fs as usize)?;
        let stack = self.field(process, PROCESS_STACK as u64);
        let saved = self.field(process, PROCESS_FRAME_OFFSET as u64);
        let top: u64 = offset_from(saved.as_int());
        let pc = if !saved.is_int() {
            self.nil()
        } else if top == o {
            self.field(process, PROCESS_PC as u64)
        } else {
            self.resume_pc(regs, stack, top, o)
        };
        let m = self.field(stack, o + FRAME_METHOD as u64);
        self.set_field(arr, 0, m);
        self.set_field(arr, 1, pc);
        self.copy_frame(regs, stack, o, arr, fs);
        Ok(PrimOutcome::Value(arr))
    }
}

} // verus!
