//! Primitives on handlers and unwinding.

use crate::inheritance::{law_handles_what_inherits, lineage};
use crate::machine::{offset_from, Machine, Regs};
use crate::prims::{FAIL_NOT_FOUND, FAIL_WRONG_TYPE};
use crate::requests::{Outcome, PrimOutcome};
use crate::value::Value;
use crate::vm::{Fault, Vm, VmError, VmView};
use crate::treaty::{
    BEHAVIOR_SUPERCLASS, CLASS_ARRAY, FMT_PTRS, FRAME_CALLER, FRAME_FLAGS, FRAME_METHOD,
    FRAME_RECEIVER, HANDLER_SLOT_BLOCK, HANDLER_SLOT_CLASS, HANDLER_SLOT_STATE,
    HANDLER_STATE_ARMED, SERIAL_SHIFT,
};
use vstd::prelude::*;

verus! {

impl VmView {
    /// A handler for a class handles an exception class that is the class or
    /// inherits from it; the chain has at most `fuel` classes.
    pub open spec fn handles(self, stored: Value, exc: Value, fuel: nat) -> bool
        decreases fuel,
    {
        if fuel == 0 || exc == self.nil() || !exc.tagged_ptr() {
            false
        } else if exc == stored {
            true
        } else {
            self.handles(
                stored,
                self.field(exc, BEHAVIOR_SUPERCLASS as int),
                (fuel - 1) as nat,
            )
        }
    }
}

impl Machine {
    /// A word of the frame at an offset of the running stack.
    pub open spec fn frame_word(self, off: u64, k: int) -> Value {
        self.vm.field(self.regs.stack, off + k)
    }

    pub open spec fn is_handler(self, off: u64) -> bool {
        let f = self.flags_at(off as int);
        f.tagged_int() && f.int_value() & 1 != 0
    }

    /// The slot of the running stack where the frame at `off` keeps its
    /// handler.
    pub open spec fn handler_at(self, off: u64) -> int {
        off + FRAME_RECEIVER + crate::vm::mh_handler_base(
            self.vm.method_bits(self.frame_word(off, FRAME_METHOD as int)),
        )
    }

    /// The frame at `off` holds an armed handler for an exception class.
    pub open spec fn armed_for(self, off: u64, exc: Value) -> bool {
        let at = self.handler_at(off);
        let state = self.vm.field(self.regs.stack, at + HANDLER_SLOT_STATE);
        let stored = self.vm.field(self.regs.stack, at + HANDLER_SLOT_CLASS);
        &&& self.is_handler(off)
        &&& state.tagged_int()
        &&& state.int_value() == HANDLER_STATE_ARMED
        &&& self.vm.handles(stored, exc, self.vm.heap.words())
    }

    /// The offset of the nearest frame from `off` down the chain with an
    /// armed handler for an exception class, or nil.
    pub open spec fn nearest_handler(self, off: u64, exc: Value) -> Value
        decreases off,
    {
        let caller = self.frame_word(off, FRAME_CALLER as int);
        let c = crate::machine::offset_of(caller.int_value());
        if self.armed_for(off, exc) {
            crate::value::tag(off as i64)
        } else if !caller.tagged_int() || caller.int_value() == 0 || c >= off {
            self.vm.nil()
        } else {
            self.nearest_handler(c, exc)
        }
    }

    #[verifier::opaque]
    pub open spec fn prim_find_handler(self, r: int) -> Result<(Machine, Outcome), Fault> {
        let exc = self.get(r + 1);
        let from = self.get(r + 2);
        if from.tagged_int() {
            let caller = self.frame_word(
                crate::machine::offset_of(from.int_value()),
                FRAME_CALLER as int,
            );
            if !caller.tagged_int() || caller.int_value() == 0 {
                self.gives(self.vm.nil())
            } else {
                self.gives(
                    self.nearest_handler(crate::machine::offset_of(caller.int_value()), exc),
                )
            }
        } else {
            self.gives(self.nearest_handler(self.regs.frame, exc))
        }
    }

    /// Unwind to a frame that is still alive and return a value from it.
    #[verifier::opaque]
    pub open spec fn prim_unwind_to(self, r: int) -> Result<(Machine, Outcome), Fault> {
        let off = self.get(r + 1);
        let serial = self.get(r + 2);
        let t = crate::machine::offset_of(off.int_value());
        if !off.tagged_int() || !serial.tagged_int() {
            self.fails(FAIL_WRONG_TYPE)
        } else if !(t <= self.regs.frame && self.has_serial(t, serial.int_value())) {
            self.fails(FAIL_NOT_FOUND)
        } else {
            Machine::controls(self.unwound(t, self.get(r + 3)))
        }
    }

    /// A handler frame's class, block and serial as an Array.
    #[verifier::opaque]
    pub open spec fn prim_handler_info(self, r: int) -> Result<(Machine, Outcome), Fault> {
        let off = self.get(r + 1);
        let o = crate::machine::offset_of(off.int_value());
        if !off.tagged_int() {
            self.fails(FAIL_WRONG_TYPE)
        } else if !self.is_handler(o) {
            self.fails(FAIL_NOT_FOUND)
        } else {
            match self.allocated(CLASS_ARRAY, FMT_PTRS, 3) {
                Err(f) => Err(f),
                Ok((m, arr)) => {
                    let at = m.handler_at(o);
                    let stored = m.vm.field(m.regs.stack, at + HANDLER_SLOT_CLASS);
                    let block = m.vm.field(m.regs.stack, at + HANDLER_SLOT_BLOCK);
                    let serial = (m.flags_at(o as int).int_value() >> 32u32) as i64;
                    m.on(
                        m.vm.with_field(arr, 0, stored).with_field(arr, 1, block).with_field(
                            arr,
                            2,
                            crate::value::tag(serial),
                        ),
                    ).gives(arr)
                },
            }
        }
    }

    #[verifier::opaque]
    pub open spec fn prim_set_handler_state(self, r: int) -> Result<(Machine, Outcome), Fault> {
        let off = self.get(r + 1);
        let state = self.get(r + 2);
        let o = crate::machine::offset_of(off.int_value());
        if !off.tagged_int() || !state.tagged_int() {
            self.fails(FAIL_WRONG_TYPE)
        } else if !self.is_handler(o) {
            self.fails(FAIL_NOT_FOUND)
        } else {
            let m = self.on(
                self.vm.with_field(
                    self.regs.stack,
                    self.handler_at(o) + HANDLER_SLOT_STATE,
                    state,
                ),
            );
            m.gives(m.get(r))
        }
    }

    /// The running frame's offset and serial as an Array.
    #[verifier::opaque]
    pub open spec fn prim_signal_context(self) -> Result<(Machine, Outcome), Fault> {
        match self.allocated(CLASS_ARRAY, FMT_PTRS, 2) {
            Err(f) => Err(f),
            Ok((m, arr)) => {
                let serial = (m.flags_at(m.regs.frame as int).int_value() >> 32u32) as i64;
                m.on(
                    m.vm.with_field(arr, 0, crate::value::tag(m.regs.frame as i64)).with_field(
                        arr,
                        1,
                        crate::value::tag(serial),
                    ),
                ).gives(arr)
            },
        }
    }
}

impl Vm {
    /// Whether a handler for a class handles an exception class.
    fn class_handles(&self, stored: Value, exc_class: Value) -> (b: bool)
        requires
            self.wf(),
        ensures
            b == self@.handles(stored, exc_class, self@.heap.words()),
            forall|chain: Seq<Value>| #[trigger]
                lineage(self@, exc_class, chain) ==> b == chain.contains(stored),
    {
        proof {
            assert forall|chain: Seq<Value>| #[trigger] lineage(self@, exc_class, chain) implies
                self@.handles(stored, exc_class, self@.heap.words()) == chain.contains(stored) by {
                law_handles_what_inherits(self@, stored, exc_class, chain);
            }
        }
        let nil = self.nil();
        let mut c = exc_class;
        let mut fuel: u64 = self.heap_words();
        while fuel > 0 && c != nil && c.is_ptr()
            invariant
                self.wf(),
                nil == self@.nil(),
                forall|chain: Seq<Value>| #[trigger]
                    lineage(self@, exc_class, chain) ==> self@.handles(
                        stored,
                        exc_class,
                        self@.heap.words(),
                    ) == chain.contains(stored),
                self@.handles(stored, exc_class, self@.heap.words()) == self@.handles(
                    stored,
                    c,
                    fuel as nat,
                ),
            decreases fuel,
        {
            if c == stored {
                return true;
            }
            c = self.field(c, BEHAVIOR_SUPERCLASS as u64);
            fuel = fuel - 1;
        }
        false
    }

    fn is_handler(&self, regs: &Regs, off: u64) -> (b: bool)
        requires
            self.wf(),
            off <= crate::machine::OFFSET_LIMIT,
        ensures
            b == crate::machine::at(self@, *regs).is_handler(off),
    {
        let f = self.field(regs.stack, off + FRAME_FLAGS as u64);
        f.is_int() && f.as_int() & 1 != 0
    }

    fn handler_at(&self, regs: &Regs, off: u64) -> (at: u64)
        requires
            self.wf(),
            off <= crate::machine::OFFSET_LIMIT,
        ensures
            at == crate::machine::at(self@, *regs).handler_at(off),
            at <= crate::machine::OFFSET_LIMIT + 1000,
    {
        let method = self.field(regs.stack, off + FRAME_METHOD as u64);
        off + FRAME_RECEIVER as u64 + self.handler_base_of(method)
    }

    fn armed_for(&self, regs: &Regs, off: u64, exc: Value) -> (b: bool)
        requires
            self.wf(),
            off <= crate::machine::OFFSET_LIMIT,
        ensures
            b == crate::machine::at(self@, *regs).armed_for(off, exc),
    {
        if !self.is_handler(regs, off) {
            return false;
        }
        let at: u64 = self.handler_at(regs, off);
        let state = self.field(regs.stack, at + HANDLER_SLOT_STATE as u64);
        let stored = self.field(regs.stack, at + HANDLER_SLOT_CLASS as u64);
        state.is_int() && state.as_int() == HANDLER_STATE_ARMED && self.class_handles(stored, exc)
    }

    fn nearest_handler(&self, regs: &Regs, start: u64, exc: Value) -> (v: Value)
        requires
            self.wf(),
            start <= crate::machine::OFFSET_LIMIT,
        ensures
            v == crate::machine::at(self@, *regs).nearest_handler(start, exc),
    {
        let mut off: u64 = start;
        loop
            invariant
                self.wf(),
                off <= crate::machine::OFFSET_LIMIT,
                crate::machine::at(self@, *regs).nearest_handler(start, exc) == crate::machine::at(
                    self@,
                    *regs,
                ).nearest_handler(off, exc),
            decreases off,
        {
            if self.armed_for(regs, off, exc) {
                return Value::tagged(off as i64);
            }
            let caller = self.field(regs.stack, off + FRAME_CALLER as u64);
            if !caller.is_int() || caller.as_int() == 0 {
                return self.nil();
            }
            let c: u64 = offset_from(caller.as_int());
            if c >= off {
                return self.nil();
            }
            off = c;
        }
    }

    pub(crate) fn prim_find_handler(&mut self, regs: &mut Regs, r: u64) -> (res: Result<
        PrimOutcome,
        VmError,
    >)
        requires
            old(self).wf(),
            old(regs).ok(),
            r <= 255,
        ensures
            final(self).wf(),
            final(regs).ok(),
            crate::prims::prim_ran(
                res,
                crate::machine::at(final(self)@, *final(regs)),
                crate::machine::at(old(self)@, *old(regs)).prim_find_handler(r as int),
            ),
            res is Ok ==> final(self)@.temp_roots.len() == old(self)@.temp_roots.len(),
            final(self)@.temp_roots.len() >= old(self)@.temp_roots.len(),
    {
        reveal(Machine::prim_find_handler);
        let exc = self.get(regs, r + 1);
        let from = self.get(regs, r + 2);
        if from.is_int() {
            let f: u64 = offset_from(from.as_int());
            let caller = self.field(regs.stack, f + FRAME_CALLER as u64);
            if !caller.is_int() || caller.as_int() == 0 {
                return Ok(PrimOutcome::Value(self.nil()));
            }
            let start: u64 = offset_from(caller.as_int());
            Ok(PrimOutcome::Value(self.nearest_handler(regs, start, exc)))
        } else {
            Ok(PrimOutcome::Value(self.nearest_handler(regs, regs.frame, exc)))
        }
    }

    pub(crate) fn prim_unwind_to(&mut self, regs: &mut Regs, r: u64) -> (res: Result<
        PrimOutcome,
        VmError,
    >)
        requires
            old(self).wf(),
            old(regs).ok(),
            r <= 255,
        ensures
            final(self).wf(),
            final(regs).ok(),
            crate::prims::prim_ran(
                res,
                crate::machine::at(final(self)@, *final(regs)),
                crate::machine::at(old(self)@, *old(regs)).prim_unwind_to(r as int),
            ),
            res is Ok ==> final(self)@.temp_roots.len() == old(self)@.temp_roots.len(),
            final(self)@.temp_roots.len() >= old(self)@.temp_roots.len(),
    {
        reveal(Machine::prim_unwind_to);
        let off = self.get(regs, r + 1);
        let serial = self.get(regs, r + 2);
        let value = self.get(regs, r + 3);
        if !off.is_int() || !serial.is_int() {
            return Ok(PrimOutcome::Fail(FAIL_WRONG_TYPE));
        }
        let t: u64 = offset_from(off.as_int());
        if t > regs.frame || !self.frame_has_serial(regs, t, serial.as_int()) {
            return Ok(PrimOutcome::Fail(FAIL_NOT_FOUND));
        }
        self.unwind_and_return_from(regs, t, value)?;
        Ok(PrimOutcome::Control)
    }

    pub(crate) fn prim_handler_info(&mut self, regs: &mut Regs, r: u64) -> (res: Result<
        PrimOutcome,
        VmError,
    >)
        requires
            old(self).wf(),
            old(regs).ok(),
            r <= 255,
        ensures
            final(self).wf(),
            final(regs).ok(),
            crate::prims::prim_ran(
                res,
                crate::machine::at(final(self)@, *final(regs)),
                crate::machine::at(old(self)@, *old(regs)).prim_handler_info(r as int),
            ),
            res is Ok ==> final(self)@.temp_roots.len() == old(self)@.temp_roots.len(),
            final(self)@.temp_roots.len() >= old(self)@.temp_roots.len(),
    {
        reveal(Machine::prim_handler_info);
        let off = self.get(regs, r + 1);
        if !off.is_int() {
            return Ok(PrimOutcome::Fail(FAIL_WRONG_TYPE));
        }
        let o: u64 = offset_from(off.as_int());
        if !self.is_handler(regs, o) {
            return Ok(PrimOutcome::Fail(FAIL_NOT_FOUND));
        }
        let arr = self.alloc_gc(regs, CLASS_ARRAY, FMT_PTRS, 3)?;
        let at: u64 = self.handler_at(regs, o);
        let stored = self.field(regs.stack, at + HANDLER_SLOT_CLASS as u64);
        let block = self.field(regs.stack, at + HANDLER_SLOT_BLOCK as u64);
        let serial: i64 = self.int_field(regs.stack, o + FRAME_FLAGS as u64) >> SERIAL_SHIFT;
        self.set_field(arr, 0, stored);
        self.set_field(arr, 1, block);
        self.set_field(arr, 2, Value::tagged(serial));
        Ok(PrimOutcome::Value(arr))
    }

    pub(crate) fn prim_set_handler_state(&mut self, regs: &mut Regs, r: u64) -> (res: Result<
        PrimOutcome,
        VmError,
    >)
        requires
            old(self).wf(),
            old(regs).ok(),
            r <= 255,
        ensures
            final(self).wf(),
            final(regs).ok(),
            crate::prims::prim_ran(
                res,
                crate::machine::at(final(self)@, *final(regs)),
                crate::machine::at(old(self)@, *old(regs)).prim_set_handler_state(r as int),
            ),
            res is Ok ==> final(self)@.temp_roots.len() == old(self)@.temp_roots.len(),
            final(self)@.temp_roots.len() >= old(self)@.temp_roots.len(),
    {
        reveal(Machine::prim_set_handler_state);
        let off = self.get(regs, r + 1);
        let state = self.get(regs, r + 2);
        if !off.is_int() || !state.is_int() {
            return Ok(PrimOutcome::Fail(FAIL_WRONG_TYPE));
        }
        let o: u64 = offset_from(off.as_int());
        if !self.is_handler(regs, o) {
            return Ok(PrimOutcome::Fail(FAIL_NOT_FOUND));
        }
        let at: u64 = self.handler_at(regs, o);
        self.set_field(regs.stack, at + HANDLER_SLOT_STATE as u64, state);
        Ok(PrimOutcome::Value(self.get(regs, r)))
    }

    pub(crate) fn prim_signal_context(&mut self, regs: &mut Regs) -> (res: Result<
        PrimOutcome,
        VmError,
    >)
        requires
            old(self).wf(),
            old(regs).ok(),
        ensures
            final(self).wf(),
            final(regs).ok(),
            crate::prims::prim_ran(
                res,
                crate::machine::at(final(self)@, *final(regs)),
                crate::machine::at(old(self)@, *old(regs)).prim_signal_context(),
            ),
            res is Ok ==> final(self)@.temp_roots.len() == old(self)@.temp_roots.len(),
            final(self)@.temp_roots.len() >= old(self)@.temp_roots.len(),
    {
        reveal(Machine::prim_signal_context);
        let arr = self.alloc_gc(regs, CLASS_ARRAY, FMT_PTRS, 2)?;
        let serial: i64 = self.int_field(regs.stack, regs.frame + FRAME_FLAGS as u64) >> SERIAL_SHIFT;
        self.set_field(arr, 0, Value::tagged(regs.frame as i64));
        self.set_field(arr, 1, Value::tagged(serial));
        Ok(PrimOutcome::Value(arr))
    }
}

} // verus!
