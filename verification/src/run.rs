//! Running processes.
//!
//! A run proceeds in turns, most of them one instruction each. It stops when
//! its process ends, when the host is asked for something, when every
//! process waits for a timer, or when its turns are used up; a run that
//! stopped can be resumed. Other processes that end on the way are
//! terminated, and the scheduler picks the next runnable one.

use crate::machine::{Machine, Pending, Regs};
use crate::text::text;
use crate::requests::{Answer, HostReply, HostRequest, PrimOutcome};
use crate::value::Value;
use crate::vm::{fatal, Fault, Vm, VmError, VmView};
use crate::treaty::{
    METHOD_HEADER, PROCESS_MY_LIST, PROCESS_STACK, SCHEDULER_ACTIVE_PROCESS, SPECIAL_PROCESSOR,
};
use vstd::prelude::*;

verus! {

/// Why a run stopped.
#[derive(Clone, Copy, PartialEq, Eq, Structural, Debug)]
pub enum RunExit {
    /// The process's base frame returned this value.
    Done(Value),
    /// The host is asked for something; see [`Vm::reply`].
    Host,
    /// Nothing can run before a timer is due.
    Wait,
    /// The turns are used up.
    Turns,
}

/// What the scheduler found.
#[derive(Clone, Copy, PartialEq, Eq, Structural, Debug)]
pub enum Pick {
    /// This process is to run.
    Ready(Value),
    /// A timer fired: look again.
    Fired,
    /// Nothing can run before a timer is due.
    Sleep,
}

/// A run that was started.
#[derive(Clone, Copy, PartialEq, Eq, Structural, Debug)]
pub struct Run {
    pub regs: Regs,
    /// Where among the temporary roots the process is kept: collections
    /// move it.
    pub target: usize,
}

pub open spec fn truncated(roots: Seq<Value>, n: int) -> Seq<Value> {
    if 0 <= n <= roots.len() {
        roots.take(n)
    } else {
        roots
    }
}

impl VmView {
    /// The next process to run.
    #[verifier::opaque]
    pub open spec fn picked(self) -> Result<(VmView, Pick), Fault> {
        let (v, p) = self.next_runnable();
        match p {
            Some(p) => Ok((v, Pick::Ready(p))),
            None => if self.timer_times.len() == 0 {
                Err(Fault::Fatal("deadlock: no runnable process and no pending timers"@, self))
            } else {
                Ok(
                    (
                        self.timers_served(),
                        if self.timer_due() {
                            Pick::Fired
                        } else {
                            Pick::Sleep
                        },
                    ),
                )
            },
        }
    }

    /// A process rooted, made the active one, and loaded.
    #[verifier::opaque]
    pub open spec fn begun(self, process: Value) -> Machine {
        let v = VmView {
            temp_roots: self.temp_roots.push(process),
            active: process,
            ..self
        }.with_stored(
            self.specials[SPECIAL_PROCESSOR as int],
            SCHEDULER_ACTIVE_PROCESS as int,
            process,
        );
        Machine { vm: v, regs: v.loaded() }
    }

    /// The machine without the roots from the run's on.
    pub open spec fn unrooted(self, target: int) -> VmView {
        VmView { temp_roots: truncated(self.temp_roots, target), ..self }
    }

    /// A process run to its end without a host.
    #[verifier::opaque]
    pub open spec fn ran_to_end(self, process: Value) -> Result<(VmView, Value), Fault> {
        let target = self.temp_roots.len() as int;
        match self.begun(process).turned(target, u64::MAX as nat) {
            Err(f) => Err(f.unrooted(target)),
            Ok((m, RunExit::Done(v))) => Ok((m.vm.unrooted(target), v)),
            Ok((m, _)) => Err(Fault::NeedsHost(m.vm.unrooted(target))),
        }
    }

    /// Processes run one after the other until none is left, at most `n`
    /// times looking for one or running it.
    pub open spec fn ran_until_idle(self, next: Option<Value>, n: nat) -> Result<VmView, Fault>
        decreases n,
    {
        if n == 0 {
            Err(Fault::NeedsHost(self))
        } else {
            match next {
                Some(p) => match self.ran_to_end(p) {
                    Err(f) => Err(f),
                    Ok((v, _)) => v.ran_until_idle(None, (n - 1) as nat),
                },
                None => match self.picked() {
                    Err(_) => Ok(self),
                    Ok((v, Pick::Ready(p))) => v.ran_until_idle(Some(p), (n - 1) as nat),
                    Ok((v, Pick::Fired)) => v.ran_until_idle(None, (n - 1) as nat),
                    Ok((v, Pick::Sleep)) => Err(Fault::NeedsHost(v)),
                },
            }
        }
    }

    /// A method called as a new process and run to its end.
    pub open spec fn called(self, method: Value, receiver: Value, args: Seq<Value>) -> Result<
        (VmView, Value),
        Fault,
    > {
        match self.spawned(method, receiver, args) {
            Err(f) => Err(f),
            Ok((v, p)) => v.ran_to_end(p),
        }
    }
}

impl Machine {
    pub open spec fn settled(self, pending: Pending) -> Machine {
        Machine { regs: Regs { pending, ..self.regs }, ..self }
    }

    /// The active process's base frame returned: the process is terminated.
    /// The run is over when it was the run's own; else another takes over.
    #[verifier::opaque]
    pub open spec fn ended(self, v: Value, target: int) -> Result<(Machine, RunExit), Fault> {
        let nil = self.vm.nil();
        let cur = self.vm.active;
        let m = Machine {
            vm: self.vm.with_stored(cur, PROCESS_STACK as int, nil).with_field(
                cur,
                PROCESS_MY_LIST as int,
                nil,
            ),
            regs: Regs { halted: None, ..self.regs },
        };
        if target < m.vm.temp_roots.len() && cur == m.vm.temp_roots[target] {
            Ok((m, RunExit::Done(v)))
        } else {
            match m.relinquished() {
                Err(f) => Err(f),
                Ok(m1) => Ok((m1, RunExit::Turns)),
            }
        }
    }

    /// Look for a process to run.
    #[verifier::opaque]
    pub open spec fn idle_turn(self) -> Result<(Machine, RunExit), Fault> {
        match self.vm.picked() {
            Err(f) => Err(f),
            Ok((v, Pick::Ready(p))) => Ok((self.on(v).switched(p), RunExit::Turns)),
            Ok((v, Pick::Fired)) => Ok((self.on(v), RunExit::Turns)),
            Ok((v, Pick::Sleep)) => Ok((self.on(v), RunExit::Wait)),
        }
    }

    pub open spec fn going(planned: Result<Machine, Fault>) -> Result<(Machine, RunExit), Fault> {
        match planned {
            Err(f) => Err(f),
            Ok(m) => Ok((m, RunExit::Turns)),
        }
    }

    /// One turn of a run; its exit is `Turns` where it goes on.
    #[verifier::opaque]
    pub open spec fn turn(self, target: int) -> Result<(Machine, RunExit), Fault> {
        match self.regs.halted {
            Some(v) => self.ended(v, target),
            None => match self.regs.pending {
                Pending::Nothing => Self::going(self.stepped()),
                Pending::Resend { selector, r, dest, argc } => if argc > 0xffff {
                    Err(Fault::Fatal("malformed send"@, self.vm))
                } else {
                    Self::going(
                        self.settled(Pending::Nothing).sent(
                            dest,
                            r,
                            selector,
                            argc as int,
                            None,
                            None,
                        ),
                    )
                },
                Pending::Idle => self.idle_turn(),
                Pending::Host(_) => Ok((self, RunExit::Host)),
                Pending::Snapshot => Ok((self, RunExit::Host)),
            },
        }
    }

    /// At most `n` turns of a run.
    pub open spec fn turned(self, target: int, n: nat) -> Result<(Machine, RunExit), Fault>
        decreases n,
    {
        if n == 0 {
            Ok((self, RunExit::Turns))
        } else {
            match self.turn(target) {
                Err(f) => Err(f),
                Ok((m, RunExit::Turns)) => m.turned(target, (n - 1) as nat),
                Ok((m, e)) => Ok((m, e)),
            }
        }
    }

    /// The host's answer taken: the primitive that waited for it ends, or
    /// the snapshot is over.
    #[verifier::opaque]
    pub open spec fn replied(self, a: Answer) -> Result<Machine, Fault> {
        let m = self.on(VmView { request: None, ..self.vm }).settled(Pending::Nothing);
        match (self.vm.request, self.regs.pending) {
            (Some(ask), Pending::Host(call)) => if call.argc > 0xffff {
                Err(Fault::Fatal("malformed send"@, m.vm))
            } else {
                match m.answered(ask, a) {
                    Err(f) => Err(f),
                    Ok((m1, o)) => {
                        let m2 = if o is Fail {
                            m1.on(m1.vm.prim_failed(call.prim))
                        } else {
                            m1
                        };
                        if call.inline {
                            m2.inline_applied(call, o)
                        } else {
                            m2.outcome_applied(call, o)
                        }
                    },
                }
            },
            (Some(ask), Pending::Snapshot) => match a {
                Answer::Done => Ok(
                    m.on(VmView { snap_len: Some(m.vm.capture.len() as int), ..m.vm }),
                ),
                Answer::Refused(cause) => Err(
                    Fault::Fatal("image write failed: "@ + cause, m.vm),
                ),
                _ => Err(Fault::Fatal("image write failed"@, m.vm)),
            },
            _ => Err(Fault::Fatal("the host was not asked"@, m.vm)),
        }
    }
}

/// What a turn answers and leaves behind.
pub open spec fn turned_to(
    r: Result<RunExit, VmError>,
    after: Machine,
    planned: Result<(Machine, RunExit), Fault>,
) -> bool {
    match planned {
        Ok((m, e)) => r == Ok::<RunExit, VmError>(e) && after == m,
        Err(f) => r is Err && r->Err_0.tells(f, after.vm),
    }
}

impl Vm {
    /// The next process to run, or whether to look again.
    pub fn pick_next_or_wait(&mut self) -> (r: Result<Pick, VmError>)
        requires
            old(self).wf(),
        ensures
            final(self).wf(),
            match old(self)@.picked() {
                Ok((v, p)) => r == Ok::<Pick, VmError>(p) && final(self)@ == v,
                Err(f) => r is Err && r->Err_0.tells(f, final(self)@) && final(self)@ == old(
                    self,
                )@,
            },
            final(self)@.temp_roots == old(self)@.temp_roots,
    {
        reveal(VmView::picked);
        if let Some(p) = self.take_next_runnable() {
            return Ok(Pick::Ready(p));
        }
        if self.timer_times.len() == 0 {
            return fatal("deadlock: no runnable process and no pending timers");
        }
        if self.service_timers() {
            Ok(Pick::Fired)
        } else {
            Ok(Pick::Sleep)
        }
    }

    fn end_process(&mut self, regs: &mut Regs, v: Value, target: usize) -> (r: Result<RunExit, VmError>)
        requires
            old(self).wf(),
            old(regs).ok(),
        ensures
            final(self).wf(),
            final(regs).ok(),
            turned_to(
                r,
                crate::machine::at(final(self)@, *final(regs)),
                crate::machine::at(old(self)@, *old(regs)).ended(v, target as int),
            ),
            r is Ok ==> final(self)@.temp_roots.len() == old(self)@.temp_roots.len(),
            final(self)@.temp_roots.len() >= old(self)@.temp_roots.len(),
    {
        reveal(Machine::ended);
        let nil = self.nil();
        let cur = self.active_process;
        self.store_field(cur, PROCESS_STACK as u64, nil);
        self.set_field(cur, PROCESS_MY_LIST as u64, nil);
        regs.halted = None;
        if target < self.temp_roots.len() && cur == self.temp_roots[target] {
            return Ok(RunExit::Done(v));
        }
        self.relinquish(regs)?;
        Ok(RunExit::Turns)
    }

    fn idle_turn(&mut self, regs: &mut Regs) -> (r: Result<RunExit, VmError>)
        requires
            old(self).wf(),
            old(regs).ok(),
        ensures
            final(self).wf(),
            final(regs).ok(),
            turned_to(
                r,
                crate::machine::at(final(self)@, *final(regs)),
                crate::machine::at(old(self)@, *old(regs)).idle_turn(),
            ),
            r is Ok ==> final(self)@.temp_roots.len() == old(self)@.temp_roots.len(),
            final(self)@.temp_roots.len() >= old(self)@.temp_roots.len(),
    {
        reveal(Machine::idle_turn);
        match self.pick_next_or_wait()? {
            Pick::Ready(p) => {
                self.transfer_to(regs, p);
                Ok(RunExit::Turns)
            },
            Pick::Fired => Ok(RunExit::Turns),
            Pick::Sleep => Ok(RunExit::Wait),
        }
    }

    fn turn(&mut self, regs: &mut Regs, target: usize) -> (r: Result<RunExit, VmError>)
        requires
            old(self).wf(),
            old(regs).ok(),
        ensures
            final(self).wf(),
            final(regs).ok(),
            turned_to(
                r,
                crate::machine::at(final(self)@, *final(regs)),
                crate::machine::at(old(self)@, *old(regs)).turn(target as int),
            ),
            r is Ok ==> final(self)@.temp_roots.len() == old(self)@.temp_roots.len(),
            final(self)@.temp_roots.len() >= old(self)@.temp_roots.len(),
    {
        reveal(Machine::turn);
        if let Some(v) = regs.halted {
            return self.end_process(regs, v, target);
        }
        match regs.pending {
            Pending::Nothing => {
                self.step(regs)?;
                Ok(RunExit::Turns)
            },
            Pending::Resend { selector, r, dest, argc } => {
                if argc > 0xffff {
                    return fatal("malformed send");
                }
                regs.pending = Pending::Nothing;
                self.do_send(regs, dest, r, selector, argc, None, None)?;
                Ok(RunExit::Turns)
            },
            Pending::Idle => self.idle_turn(regs),
            Pending::Host(_) => Ok(RunExit::Host),
            Pending::Snapshot => Ok(RunExit::Host),
        }
    }

    /// At most `n` turns.
    fn turns(&mut self, regs: &mut Regs, target: usize, n: u64) -> (r: Result<RunExit, VmError>)
        requires
            old(self).wf(),
            old(regs).ok(),
        ensures
            final(self).wf(),
            final(regs).ok(),
            turned_to(
                r,
                crate::machine::at(final(self)@, *final(regs)),
                crate::machine::at(old(self)@, *old(regs)).turned(target as int, n as nat),
            ),
            r is Ok ==> final(self)@.temp_roots.len() == old(self)@.temp_roots.len(),
            final(self)@.temp_roots.len() >= old(self)@.temp_roots.len(),
    {
        let mut left: u64 = n;
        let ghost m0 = crate::machine::at(self@, *regs);
        while left > 0
            invariant
                left <= n,
                self.wf(),
                regs.ok(),
                self@.temp_roots.len() == old(self)@.temp_roots.len(),
                m0 == crate::machine::at(old(self)@, *old(regs)),
                m0.turned(target as int, n as nat) == crate::machine::at(self@, *regs).turned(
                    target as int,
                    left as nat,
                ),
            decreases left,
        {
            let e = self.turn(regs, target)?;
            if e != RunExit::Turns {
                return Ok(e);
            }
            left = left - 1;
        }
        Ok(RunExit::Turns)
    }

    /// Drop the roots from the run's on.
    fn unroot(&mut self, target: usize)
        requires
            old(self).wf(),
        ensures
            final(self).wf(),
            final(self)@ == old(self)@.unrooted(target as int),
    {
        if target <= self.temp_roots.len() {
            self.temp_roots.truncate(target);
        }
    }

    /// Start a run of a process.
    pub fn start(&mut self, process: Value) -> (run: Run)
        requires
            old(self).wf(),
        ensures
            final(self).wf(),
            run.regs.ok(),
            run.target == old(self)@.temp_roots.len(),
            crate::machine::at(final(self)@, run.regs) == old(self)@.begun(process),
            final(self)@.temp_roots.len() == old(self)@.temp_roots.len() + 1,
    {
        reveal(VmView::begun);
        let target: usize = self.temp_roots.len();
        self.temp_roots.push(process);
        self.active_process = process;
        let sched = self.specials[SPECIAL_PROCESSOR];
        self.store_field(sched, SCHEDULER_ACTIVE_PROCESS as u64, process);
        let regs = self.load_regs();
        Run { regs, target }
    }

    /// Resume a run for at most `turns` turns. When it ends, by an error
    /// too, its process is no longer rooted.
    pub fn resume(&mut self, run: &mut Run, turns: u64) -> (r: Result<RunExit, VmError>)
        requires
            old(self).wf(),
            old(run).regs.ok(),
        ensures
            final(self).wf(),
            final(run).regs.ok(),
            final(run).target == old(run).target,
            match crate::machine::at(old(self)@, old(run).regs).turned(
                old(run).target as int,
                turns as nat,
            ) {
                Ok((m, e)) => {
                    &&& r == Ok::<RunExit, VmError>(e)
                    &&& final(run).regs == m.regs
                    &&& final(self)@ == (if e is Done {
                        m.vm.unrooted(old(run).target as int)
                    } else {
                        m.vm
                    })
                },
                Err(f) => {
                    &&& r is Err
                    &&& r->Err_0.tells(f.unrooted(old(run).target as int), final(self)@)
                    &&& final(self)@.temp_roots.len() <= old(run).target
                },
            },
            old(self)@.temp_roots.len() >= old(run).target ==> final(self)@.temp_roots.len() == (
            match r {
                Ok(RunExit::Done(_)) => old(run).target as nat,
                Ok(_) => old(self)@.temp_roots.len(),
                Err(_) => old(run).target as nat,
            }),
    {
        let target: usize = run.target;
        let mut regs = run.regs;
        let r = self.turns(&mut regs, target, turns);
        run.regs = regs;
        match r {
            Ok(RunExit::Done(v)) => {
                self.unroot(target);
                Ok(RunExit::Done(v))
            },
            Err(e) => {
                self.unroot(target);
                Err(e)
            },
            Ok(e) => Ok(e),
        }
    }

    /// Take what the host is asked for, if it is asked.
    pub fn host_request(&self) -> (r: Option<&HostRequest>)
        ensures
            match self@.request {
                None => r is None,
                Some(a) => r is Some && r->0@ == a,
            },
    {
        self.request.as_ref()
    }

    /// Hand the host's answer to a run that waits for it.
    pub fn reply(&mut self, run: &mut Run, reply: HostReply) -> (r: Result<(), VmError>)
        requires
            old(self).wf(),
            old(run).regs.ok(),
        ensures
            final(self).wf(),
            final(run).regs.ok(),
            final(run).target == old(run).target,
            crate::machine::ran(
                r,
                crate::machine::at(final(self)@, final(run).regs),
                crate::machine::at(old(self)@, old(run).regs).replied(reply@),
            ),
            r is Ok ==> final(self)@.temp_roots.len() == old(self)@.temp_roots.len(),
            final(self)@.temp_roots.len() >= old(self)@.temp_roots.len(),
    {
        reveal(Machine::replied);
        let pending = run.regs.pending;
        let ask = match self.request.take() {
            Some(ask) => ask,
            None => {
                return fatal("the host was not asked");
            },
        };
        let mut regs = run.regs;
        regs.pending = Pending::Nothing;
        match pending {
            Pending::Host(call) => {
                if call.argc > 0xffff {
                    return fatal("malformed send");
                }
                let answered = self.answer(&mut regs, &ask, &reply);
                run.regs = regs;
                let outcome = answered?;
                if let PrimOutcome::Fail(_) = outcome {
                    self.count_prim_fail(call.prim);
                }
                let applied = if call.inline {
                    self.apply_inline(&mut regs, call, outcome)
                } else {
                    self.apply_outcome(&mut regs, call, outcome)
                };
                run.regs = regs;
                applied
            },
            Pending::Snapshot => {
                run.regs = regs;
                match reply {
                    HostReply::Done => {
                        self.snapshot_fired_at_capture_len = Some(self.stdout_capture.len());
                        Ok(())
                    },
                    HostReply::Refused(cause) => {
                        let mut s: String = text("image write failed: ");
                        s.append(cause.as_str());
                        Err(VmError::Fatal(s))
                    },
                    _ => fatal("image write failed"),
                }
            },
            _ => fatal("the host was not asked"),
        }
    }

    /// Run a process until its base frame returns. Where the host is needed,
    /// [`Vm::start`] and [`Vm::resume`] do this in parts.
    pub fn run(&mut self, process: Value) -> (r: Result<Value, VmError>)
        requires
            old(self).wf(),
        ensures
            final(self).wf(),
            crate::gc::outcome(r, final(self)@, old(self)@.ran_to_end(process)),
            final(self)@.temp_roots.len() == old(self)@.temp_roots.len(),
    {
        reveal(VmView::ran_to_end);
        let mut run = self.start(process);
        match self.resume(&mut run, u64::MAX) {
            Ok(RunExit::Done(v)) => Ok(v),
            Ok(_) => {
                self.unroot(run.target);
                Err(VmError::NeedsHost)
            },
            Err(e) => Err(e),
        }
    }

    /// Call a method on a receiver: a new process, run to its end.
    pub fn call(&mut self, method: Value, receiver: Value, args: &[Value]) -> (r: Result<
        Value,
        VmError,
    >)
        requires
            old(self).wf(),
            old(self)@.heap.shaped(method.addr(), METHOD_HEADER + 1),
            crate::vm::mh_argc(old(self)@.heap.mh(method)) == args@.len(),
        ensures
            final(self).wf(),
            crate::gc::outcome(r, final(self)@, old(self)@.called(method, receiver, args@)),
            r is Ok ==> final(self)@.temp_roots.len() == old(self)@.temp_roots.len(),
    {
        let p = self.spawn_process(method, receiver, args)?;
        self.run(p)
    }

    /// Run until no process is runnable: a process's base-frame return
    /// terminates it, and the scheduler picks the next.
    pub fn run_until_idle(&mut self, process: Value) -> (r: Result<(), VmError>)
        requires
            old(self).wf(),
        ensures
            final(self).wf(),
            match old(self)@.ran_until_idle(Some(process), u64::MAX as nat) {
                Ok(v) => r is Ok && final(self)@ == v,
                Err(f) => r is Err && r->Err_0.tells(f, final(self)@),
            },
    {
        let mut next: Option<Value> = Some(process);
        let mut left: u64 = u64::MAX;
        while left > 0
            invariant
                self.wf(),
                old(self)@.ran_until_idle(Some(process), u64::MAX as nat)
                    == self@.ran_until_idle(next, left as nat),
            decreases left,
        {
            match next {
                Some(p) => {
                    self.run(p)?;
                    next = None;
                },
                None => match self.pick_next_or_wait() {
                    Err(_) => {
                        return Ok(());
                    },
                    Ok(Pick::Ready(p)) => {
                        next = Some(p);
                    },
                    Ok(Pick::Fired) => {},
                    Ok(Pick::Sleep) => {
                        return Err(VmError::NeedsHost);
                    },
                },
            }
            left = left - 1;
        }
        Err(VmError::NeedsHost)
    }
}

} // verus!
