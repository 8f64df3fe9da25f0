//! Dispatch of primitives by number.

use crate::counters::{bump_at, PRIM_COUNTERS};
use crate::machine::{Machine, Regs};
use crate::prims::{FAIL_BAD_INDEX, FAIL_UNKNOWN_PRIM, FAIL_WRONG_TYPE};
use crate::requests::{Ask, HostRequest, Outcome, PrimOutcome};
use crate::text::append_dec;
use crate::value::Value;
use crate::vm::{Fault, Vm, VmError, VmView};
use crate::treaty::{
    PRIM_AT, PRIM_AT_PUT, PRIM_BLOCK_VALUE_0, PRIM_BLOCK_VALUE_4, PRIM_BLOCK_VALUE_ARGS,
    PRIM_CLASS, PRIM_CLOCK_MONOTONIC_MS, PRIM_CLOCK_WALL_MS, PRIM_FILE_CLOSE, PRIM_FILE_DELETE,
    PRIM_FILE_OPEN, PRIM_FILE_POSITION, PRIM_FILE_READ, PRIM_FILE_SIZE, PRIM_FILE_WRITE,
    PRIM_FIND_HANDLER, PRIM_FLOAT_ADD, PRIM_FLOAT_SQRT, PRIM_FLUSH_CACHES, PRIM_FRAME_INFO,
    PRIM_HANDLER_INFO, PRIM_IDENTICAL, PRIM_IDENTITY_HASH, PRIM_INST_VAR_AT, PRIM_INST_VAR_AT_PUT,
    PRIM_INT_ADD, PRIM_INT_AS_FLOAT, PRIM_INT_BIT_SHIFT, PRIM_INT_EQ, PRIM_INT_LT,
    PRIM_METHOD_INSTALL, PRIM_NEW, PRIM_NEW_SIZED, PRIM_NEXT_EVENT, PRIM_PERFORM_WITH_ARGS,
    PRIM_PROCESS_RESUME, PRIM_PROCESS_SUSPEND, PRIM_PROCESS_TERMINATE, PRIM_REGISTER_CLASS,
    PRIM_SEMAPHORE_SIGNAL, PRIM_SEMAPHORE_WAIT, PRIM_SET_HANDLER_STATE, PRIM_SIGNAL_AT_MS,
    PRIM_SIGNAL_CONTEXT, PRIM_SIZE, PRIM_SNAPSHOT, PRIM_STDIO_READ, PRIM_STDIO_WRITE,
    PRIM_TRANSFER_TO, PRIM_UNWIND_TO, PRIM_YIELD,
};
use vstd::prelude::*;

verus! {

/// The pseudo-leaf under which samples in a primitive are recorded.
pub open spec fn prim_label(n: u16) -> Seq<char> {
    "<vm:prim:"@ + crate::text::dec(n as int) + ">"@
}

fn label_prim(n: u16) -> (s: String)
    ensures
        s@ == prim_label(n),
{
    let mut s = crate::text::text("<vm:prim:");
    append_dec(&mut s, n as u64);
    s.append(">");
    s
}

impl VmView {
    pub open spec fn prim_called(self, n: u16) -> VmView {
        if n < PRIM_COUNTERS {
            VmView {
                ctr: crate::counters::CountersView {
                    prim_calls: crate::counters::bumped(self.ctr.prim_calls, n as int),
                    ..self.ctr
                },
                ..self
            }
        } else {
            self
        }
    }

    pub open spec fn prim_failed(self, n: u16) -> VmView {
        if n < PRIM_COUNTERS {
            VmView {
                ctr: crate::counters::CountersView {
                    prim_fails: crate::counters::bumped(self.ctr.prim_fails, n as int),
                    ..self.ctr
                },
                ..self
            }
        } else {
            self
        }
    }
}

impl Machine {
    pub open spec fn prim_at(self, k: int) -> Result<(Machine, Outcome), Fault> {
        match self.vm.at(self.get(k), self.get(k + 1)) {
            Some(v) => self.gives(v),
            None => self.fails(FAIL_BAD_INDEX),
        }
    }

    pub open spec fn prim_at_put(self, k: int) -> Result<(Machine, Outcome), Fault> {
        match self.vm.at_put(self.get(k), self.get(k + 1), self.get(k + 2)) {
            Some(vm) => self.on(vm).gives(self.get(k + 2)),
            None => self.fails(FAIL_BAD_INDEX),
        }
    }

    pub open spec fn prim_size(self, k: int) -> Result<(Machine, Outcome), Fault> {
        match self.vm.size(self.get(k)) {
            Some(v) => self.gives(v),
            None => self.fails(FAIL_WRONG_TYPE),
        }
    }

    pub open spec fn prim_self(self, k: int) -> Result<(Machine, Outcome), Fault> {
        self.gives(self.get(k))
    }

    /// The call counted, and a due sample taken under the primitive's
    /// pseudo-leaf.
    #[verifier::opaque]
    pub open spec fn prim_entered(self, n: u16) -> Machine {
        let vm = self.vm.prim_called(n);
        if vm.sample_wanted() {
            self.on(
                vm.sample_asked().sample_taken(
                    self.regs.stack,
                    self.regs.frame as int,
                    Some(prim_label(n)),
                ),
            )
        } else {
            self.on(vm.sample_asked())
        }
    }

    /// Primitives that transfer control or inspect frames.
    #[verifier::opaque]
    pub open spec fn control_primitive(self, n: u16, r: u8, argc: int, dest: u8) -> Result<
        (Machine, Outcome),
        Fault,
    > {
        let k = r as int;
        if PRIM_BLOCK_VALUE_0 <= n <= PRIM_BLOCK_VALUE_4 {
            self.prim_block_value(r, argc, dest, n - PRIM_BLOCK_VALUE_0)
        } else if n == PRIM_BLOCK_VALUE_ARGS {
            self.prim_block_value_args(r, dest)
        } else if n == PRIM_TRANSFER_TO {
            self.prim_transfer_to(k)
        } else if n == PRIM_SEMAPHORE_WAIT {
            self.prim_wait(k)
        } else if n == PRIM_SEMAPHORE_SIGNAL {
            self.prim_signal(k)
        } else if n == PRIM_YIELD {
            self.prim_yield(k)
        } else if n == PRIM_PROCESS_RESUME {
            self.prim_resume(k)
        } else if n == PRIM_PROCESS_SUSPEND {
            self.prim_suspend(k)
        } else if n == PRIM_PROCESS_TERMINATE {
            self.prim_terminate(k)
        } else if n == PRIM_SIGNAL_AT_MS {
            self.prim_signal_at(k)
        } else if n == PRIM_FIND_HANDLER {
            self.prim_find_handler(k)
        } else if n == PRIM_UNWIND_TO {
            self.prim_unwind_to(k)
        } else if n == PRIM_HANDLER_INFO {
            self.prim_handler_info(k)
        } else if n == PRIM_SET_HANDLER_STATE {
            self.prim_set_handler_state(k)
        } else if n == PRIM_SIGNAL_CONTEXT {
            self.prim_signal_context()
        } else if n == PRIM_FRAME_INFO {
            self.prim_frame_info(k)
        } else {
            self.fails(FAIL_UNKNOWN_PRIM)
        }
    }

    /// Primitives on objects, integers and the method tables.
    #[verifier::opaque]
    pub open spec fn object_primitive(self, n: u16, r: u8, argc: int, dest: u8) -> Result<
        (Machine, Outcome),
        Fault,
    > {
        let k = r as int;
        if n == PRIM_CLASS {
            self.gives(self.vm.class_value(self.get(k)))
        } else if n == PRIM_IDENTITY_HASH {
            self.prim_hash(k)
        } else if n == PRIM_IDENTICAL {
            self.gives(self.vm.bool_v(self.get(k) == self.get(k + 1)))
        } else if n == PRIM_NEW {
            self.prim_new(k)
        } else if n == PRIM_NEW_SIZED {
            self.prim_new_sized(k)
        } else if n == PRIM_AT {
            self.prim_at(k)
        } else if n == PRIM_AT_PUT {
            self.prim_at_put(k)
        } else if n == PRIM_SIZE {
            self.prim_size(k)
        } else if n == PRIM_INST_VAR_AT {
            self.prim_ivar_at(k)
        } else if n == PRIM_INST_VAR_AT_PUT {
            self.prim_ivar_at_put(k)
        } else if n == PRIM_PERFORM_WITH_ARGS {
            self.prim_perform(r, dest)
        } else if PRIM_INT_LT <= n <= PRIM_INT_EQ {
            self.prim_int_compare(n, k)
        } else if PRIM_INT_ADD <= n <= PRIM_INT_BIT_SHIFT {
            self.prim_int(n, k)
        } else if n == PRIM_REGISTER_CLASS {
            self.prim_register_class(k)
        } else if n == PRIM_METHOD_INSTALL {
            self.prim_install(k)
        } else if n == PRIM_FLUSH_CACHES {
            self.on(self.vm.flushed()).prim_self(k)
        } else {
            self.control_primitive(n, r, argc, dest)
        }
    }

    /// The primitive with number `n`: receiver at slot `r`, arguments after it.
    #[verifier::opaque]
    pub open spec fn dispatched_primitive(self, n: u16, r: u8, argc: int, dest: u8) -> Result<
        (Machine, Outcome),
        Fault,
    > {
        let k = r as int;
        if n == PRIM_INT_AS_FLOAT {
            self.prim_int_as_float(k)
        } else if PRIM_FLOAT_ADD <= n <= PRIM_FLOAT_SQRT {
            self.prim_float(n, k)
        } else if n == PRIM_FILE_OPEN {
            self.prim_file_open(k)
        } else if n == PRIM_FILE_CLOSE {
            self.prim_file_close(k)
        } else if n == PRIM_FILE_READ {
            self.prim_file_read(k)
        } else if n == PRIM_FILE_WRITE {
            self.prim_file_write(k)
        } else if PRIM_FILE_POSITION <= n <= PRIM_FILE_SIZE {
            self.prim_file_seek(n, k)
        } else if n == PRIM_FILE_DELETE {
            self.prim_file_delete(k)
        } else if n == PRIM_STDIO_WRITE {
            self.prim_stdio_write(k)
        } else if n == PRIM_STDIO_READ {
            self.prim_stdio_read(k)
        } else if n == PRIM_NEXT_EVENT {
            self.gives(self.vm.nil())
        } else if n == PRIM_CLOCK_MONOTONIC_MS {
            self.asks(Ask::MonotonicMs)
        } else if n == PRIM_CLOCK_WALL_MS {
            self.asks(Ask::WallMs)
        } else if n == PRIM_SNAPSHOT {
            self.prim_snapshot(k, dest)
        } else {
            self.object_primitive(n, r, argc, dest)
        }
    }

    /// A primitive run, its call and its failure counted.
    #[verifier::opaque]
    pub open spec fn primitive(self, n: u16, r: u8, argc: int, dest: u8) -> Result<
        (Machine, Outcome),
        Fault,
    > {
        match self.prim_entered(n).dispatched_primitive(n, r, argc, dest) {
            Ok((m, Outcome::Fail(c))) => m.on(m.vm.prim_failed(n)).fails(c),
            other => other,
        }
    }
}

impl Vm {
    fn count_prim_call(&mut self, n: u16)
        requires
            old(self).wf(),
        ensures
            final(self).wf(),
            final(self)@ == old(self)@.prim_called(n),
    {
        if (n as usize) < PRIM_COUNTERS {
            bump_at(&mut self.counters.prim_calls, n as usize);
        }
    }

    pub(crate) fn count_prim_fail(&mut self, n: u16)
        requires
            old(self).wf(),
        ensures
            final(self).wf(),
            final(self)@ == old(self)@.prim_failed(n),
    {
        if (n as usize) < PRIM_COUNTERS {
            bump_at(&mut self.counters.prim_fails, n as usize);
        }
    }

    fn enter_prim(&mut self, regs: &Regs, n: u16)
        requires
            old(self).wf(),
            regs.ok(),
        ensures
            final(self).wf(),
            crate::machine::at(final(self)@, *regs) == crate::machine::at(
                old(self)@,
                *regs,
            ).prim_entered(n),
            final(self)@.temp_roots == old(self)@.temp_roots,
    {
        reveal(Machine::prim_entered);
        self.count_prim_call(n);
        if self.sample_due_here() {
            let label = label_prim(n);
            self.take_sample(regs.stack, regs.frame, Some(label.as_str()));
        }
    }

    fn prim_at(&mut self, regs: &mut Regs, k: u64) -> (res: Result<PrimOutcome, VmError>)
        requires
            old(self).wf(),
            old(regs).ok(),
            k <= 255,
        ensures
            final(self).wf(),
            final(regs).ok(),
            crate::prims::prim_ran(
                res,
                crate::machine::at(final(self)@, *final(regs)),
                crate::machine::at(old(self)@, *old(regs)).prim_at(k as int),
            ),
            res is Ok ==> final(self)@.temp_roots.len() == old(self)@.temp_roots.len(),
            final(self)@.temp_roots.len() >= old(self)@.temp_roots.len(),
    {
        let recv = self.get(regs, k);
        let idx = self.get(regs, k + 1);
        match self.at_value(recv, idx) {
            Some(v) => Ok(PrimOutcome::Value(v)),
            None => Ok(PrimOutcome::Fail(FAIL_BAD_INDEX)),
        }
    }

    fn prim_at_put(&mut self, regs: &mut Regs, k: u64) -> (res: Result<PrimOutcome, VmError>)
        requires
            old(self).wf(),
            old(regs).ok(),
            k <= 255,
        ensures
            final(self).wf(),
            final(regs).ok(),
            crate::prims::prim_ran(
                res,
                crate::machine::at(final(self)@, *final(regs)),
                crate::machine::at(old(self)@, *old(regs)).prim_at_put(k as int),
            ),
            res is Ok ==> final(self)@.temp_roots.len() == old(self)@.temp_roots.len(),
            final(self)@.temp_roots.len() >= old(self)@.temp_roots.len(),
    {
        let recv = self.get(regs, k);
        let idx = self.get(regs, k + 1);
        let val = self.get(regs, k + 2);
        match self.at_put_value(recv, idx, val) {
            Some(v) => Ok(PrimOutcome::Value(v)),
            None => Ok(PrimOutcome::Fail(FAIL_BAD_INDEX)),
        }
    }

    fn prim_size(&mut self, regs: &mut Regs, k: u64) -> (res: Result<PrimOutcome, VmError>)
        requires
            old(self).wf(),
            old(regs).ok(),
            k <= 255,
        ensures
            final(self).wf(),
            final(regs).ok(),
            crate::prims::prim_ran(
                res,
                crate::machine::at(final(self)@, *final(regs)),
                crate::machine::at(old(self)@, *old(regs)).prim_size(k as int),
            ),
            res is Ok ==> final(self)@.temp_roots.len() == old(self)@.temp_roots.len(),
            final(self)@.temp_roots.len() >= old(self)@.temp_roots.len(),
    {
        let recv = self.get(regs, k);
        match self.size_value(recv) {
            Some(v) => Ok(PrimOutcome::Value(v)),
            None => Ok(PrimOutcome::Fail(FAIL_WRONG_TYPE)),
        }
    }

    fn run_control_primitive(&mut self, regs: &mut Regs, n: u16, r: u8, argc: u64, dest: u8) -> (res: Result<
        PrimOutcome,
        VmError,
    >)
        requires
            old(self).wf(),
            old(regs).ok(),
            argc <= 0xffff,
        ensures
            final(self).wf(),
            final(regs).ok(),
            crate::prims::prim_ran(
                res,
                crate::machine::at(final(self)@, *final(regs)),
                crate::machine::at(old(self)@, *old(regs)).control_primitive(n, r, argc as int, dest),
            ),
            res is Ok ==> final(self)@.temp_roots.len() == old(self)@.temp_roots.len(),
            final(self)@.temp_roots.len() >= old(self)@.temp_roots.len(),
    {
        reveal(Machine::control_primitive);
        let k: u64 = r as u64;
        if PRIM_BLOCK_VALUE_0 <= n && n <= PRIM_BLOCK_VALUE_4 {
            self.prim_block_value(regs, r, argc, dest, (n - PRIM_BLOCK_VALUE_0) as u64)
        } else if n == PRIM_BLOCK_VALUE_ARGS {
            self.prim_block_value_args(regs, r, dest)
        } else if n == PRIM_TRANSFER_TO {
            self.prim_transfer_to(regs, k)
        } else if n == PRIM_SEMAPHORE_WAIT {
            self.prim_semaphore_wait(regs, k)
        } else if n == PRIM_SEMAPHORE_SIGNAL {
            self.prim_semaphore_signal(regs, k)
        } else if n == PRIM_YIELD {
            self.prim_yield(regs, k)
        } else if n == PRIM_PROCESS_RESUME {
            self.prim_process_resume(regs, k)
        } else if n == PRIM_PROCESS_SUSPEND {
            self.prim_process_suspend(regs, k)
        } else if n == PRIM_PROCESS_TERMINATE {
            self.prim_process_terminate(regs, k)
        } else if n == PRIM_SIGNAL_AT_MS {
            self.prim_signal_at(regs, k)
        } else if n == PRIM_FIND_HANDLER {
            self.prim_find_handler(regs, k)
        } else if n == PRIM_UNWIND_TO {
            self.prim_unwind_to(regs, k)
        } else if n == PRIM_HANDLER_INFO {
            self.prim_handler_info(regs, k)
        } else if n == PRIM_SET_HANDLER_STATE {
            self.prim_set_handler_state(regs, k)
        } else if n == PRIM_SIGNAL_CONTEXT {
            self.prim_signal_context(regs)
        } else if n == PRIM_FRAME_INFO {
            self.prim_frame_info(regs, k)
        } else {
            Ok(PrimOutcome::Fail(FAIL_UNKNOWN_PRIM))
        }
    }

    fn run_object_primitive(&mut self, regs: &mut Regs, n: u16, r: u8, argc: u64, dest: u8) -> (res: Result<
        PrimOutcome,
        VmError,
    >)
        requires
            old(self).wf(),
            old(regs).ok(),
            argc <= 0xffff,
        ensures
            final(self).wf(),
            final(regs).ok(),
            crate::prims::prim_ran(
                res,
                crate::machine::at(final(self)@, *final(regs)),
                crate::machine::at(old(self)@, *old(regs)).object_primitive(n, r, argc as int, dest),
            ),
            res is Ok ==> final(self)@.temp_roots.len() == old(self)@.temp_roots.len(),
            final(self)@.temp_roots.len() >= old(self)@.temp_roots.len(),
    {
        reveal(Machine::object_primitive);
        let k: u64 = r as u64;
        if n == PRIM_CLASS {
            Ok(PrimOutcome::Value(self.class_value(self.get(regs, k))))
        } else if n == PRIM_IDENTITY_HASH {
            self.prim_hash(regs, k)
        } else if n == PRIM_IDENTICAL {
            let same = self.get(regs, k) == self.get(regs, k + 1);
            Ok(PrimOutcome::Value(self.bool_v(same)))
        } else if n == PRIM_NEW {
            self.prim_new(regs, k)
        } else if n == PRIM_NEW_SIZED {
            self.prim_new_sized(regs, k)
        } else if n == PRIM_AT {
            self.prim_at(regs, k)
        } else if n == PRIM_AT_PUT {
            self.prim_at_put(regs, k)
        } else if n == PRIM_SIZE {
            self.prim_size(regs, k)
        } else if n == PRIM_INST_VAR_AT {
            self.prim_ivar_at(regs, k)
        } else if n == PRIM_INST_VAR_AT_PUT {
            self.prim_ivar_at_put(regs, k)
        } else if n == PRIM_PERFORM_WITH_ARGS {
            self.prim_perform(regs, r, dest)
        } else if PRIM_INT_LT <= n && n <= PRIM_INT_EQ {
            self.prim_int_compare(regs, n, k)
        } else if PRIM_INT_ADD <= n && n <= PRIM_INT_BIT_SHIFT {
            self.prim_int_binary(regs, n, k)
        } else if n == PRIM_REGISTER_CLASS {
            self.prim_register_class(regs, k)
        } else if n == PRIM_METHOD_INSTALL {
            self.prim_install(regs, k)
        } else if n == PRIM_FLUSH_CACHES {
            self.flush_caches();
            Ok(PrimOutcome::Value(self.get(regs, k)))
        } else {
            self.run_control_primitive(regs, n, r, argc, dest)
        }
    }

    fn run_dispatched_primitive(&mut self, regs: &mut Regs, n: u16, r: u8, argc: u64, dest: u8) -> (res: Result<
        PrimOutcome,
        VmError,
    >)
        requires
            old(self).wf(),
            old(regs).ok(),
            argc <= 0xffff,
        ensures
            final(self).wf(),
            final(regs).ok(),
            crate::prims::prim_ran(
                res,
                crate::machine::at(final(self)@, *final(regs)),
                crate::machine::at(old(self)@, *old(regs)).dispatched_primitive(n, r, argc as int, dest),
            ),
            res is Ok ==> final(self)@.temp_roots.len() == old(self)@.temp_roots.len(),
            final(self)@.temp_roots.len() >= old(self)@.temp_roots.len(),
    {
        reveal(Machine::dispatched_primitive);
        let k: u64 = r as u64;
        if n == PRIM_INT_AS_FLOAT {
            self.prim_int_as_float(regs, k)
        } else if PRIM_FLOAT_ADD <= n && n <= PRIM_FLOAT_SQRT {
            self.prim_float(regs, n, k)
        } else if n == PRIM_FILE_OPEN {
            self.prim_file_open(regs, k)
        } else if n == PRIM_FILE_CLOSE {
            self.prim_file_close(regs, k)
        } else if n == PRIM_FILE_READ {
            self.prim_file_read(regs, k)
        } else if n == PRIM_FILE_WRITE {
            self.prim_file_write(regs, k)
        } else if PRIM_FILE_POSITION <= n && n <= PRIM_FILE_SIZE {
            self.prim_file_seek_family(regs, n, k)
        } else if n == PRIM_FILE_DELETE {
            self.prim_file_delete(regs, k)
        } else if n == PRIM_STDIO_WRITE {
            self.prim_stdio_write(regs, k)
        } else if n == PRIM_STDIO_READ {
            self.prim_stdio_read(regs, k)
        } else if n == PRIM_NEXT_EVENT {
            Ok(PrimOutcome::Value(self.nil()))
        } else if n == PRIM_CLOCK_MONOTONIC_MS {
            Ok(PrimOutcome::Ask(HostRequest::MonotonicMs))
        } else if n == PRIM_CLOCK_WALL_MS {
            Ok(PrimOutcome::Ask(HostRequest::WallMs))
        } else if n == PRIM_SNAPSHOT {
            self.prim_snapshot(regs, k, dest)
        } else {
            self.run_object_primitive(regs, n, r, argc, dest)
        }
    }

    /// Run primitive `n`: receiver at slot `r`, arguments at the slots after it.
    /// The caller puts a value outcome into `dest`; control primitives move the
    /// registers themselves.
    pub fn run_primitive(&mut self, regs: &mut Regs, n: u16, r: u8, argc: u64, dest: u8) -> (res: Result<
        PrimOutcome,
        VmError,
    >)
        requires
            old(self).wf(),
            old(regs).ok(),
            argc <= 0xffff,
        ensures
            final(self).wf(),
            final(regs).ok(),
            crate::prims::prim_ran(
                res,
                crate::machine::at(final(self)@, *final(regs)),
                crate::machine::at(old(self)@, *old(regs)).primitive(n, r, argc as int, dest),
            ),
            res is Ok ==> final(self)@.temp_roots.len() == old(self)@.temp_roots.len(),
            final(self)@.temp_roots.len() >= old(self)@.temp_roots.len(),
    {
        reveal(Machine::primitive);
        self.enter_prim(regs, n);
        let outcome = self.run_dispatched_primitive(regs, n, r, argc, dest)?;
        if let PrimOutcome::Fail(c) = outcome {
            self.count_prim_fail(n);
            return Ok(PrimOutcome::Fail(c));
        }
        Ok(outcome)
    }
}

} // verus!
