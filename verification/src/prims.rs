//! Numbered primitives on objects, integers and blocks.
//!
//! A primitive either fully succeeds, with a value or a transfer of control,
//! or fails cleanly with a code, in which case the method's body runs with
//! the code in the slot after the arguments.

use crate::arith::int_binary;
use crate::heap::MAX_CLASS_INDEX;
use crate::machine::{Machine, Pending, Regs};
use crate::requests::{Outcome, PrimOutcome};
use crate::value::Value;
use crate::vm::{Fault, Vm, VmError, VmView};
use crate::treaty::{
    BEHAVIOR_CLASS_INDEX, CLASS_BLOCKCLOSURE, CLASS_SMALLINTEGER, CLOSURE_COMPILED_BLOCK,
    FLAG_BLOCKCTX, FMT_BYTES_BASE, FMT_FIXED, FMT_PTRS, FRAME_RECEIVER, PRIM_INT_GE, PRIM_INT_GT,
    PRIM_INT_LE, PRIM_INT_LT, SPECIAL_SPECIALIZED_SELECTORS,
};
use vstd::prelude::*;

verus! {

pub const FAIL_UNKNOWN_PRIM: i64 = 1;

pub const FAIL_WRONG_TYPE: i64 = 2;

pub const FAIL_WRONG_ARGC: i64 = 3;

pub const FAIL_BAD_INDEX: i64 = 4;

pub const FAIL_IMMUTABLE: i64 = 5;

pub const FAIL_OVERFLOW: i64 = 6;

pub const FAIL_UNSUPPORTED_CONTEXT: i64 = 7;

pub const FAIL_NOT_FOUND: i64 = 8;

/// What a primitive answers and leaves behind.
pub open spec fn prim_ran(
    r: Result<PrimOutcome, VmError>,
    after: Machine,
    planned: Result<(Machine, Outcome), Fault>,
) -> bool {
    match planned {
        Ok((m, o)) => r is Ok && r->Ok_0@ == o && after == m,
        Err(f) => r is Err && r->Err_0.tells(f, after.vm),
    }
}

impl Machine {
    /// The primitive fails with a code, and nothing changes.
    pub open spec fn fails(self, code: i64) -> Result<(Machine, Outcome), Fault> {
        Ok((self, Outcome::Fail(code)))
    }

    pub open spec fn gives(self, v: Value) -> Result<(Machine, Outcome), Fault> {
        Ok((self, Outcome::Value(v)))
    }

    /// Control moves on where the step succeeds.
    pub open spec fn controls(planned: Result<Machine, Fault>) -> Result<(Machine, Outcome), Fault> {
        match planned {
            Err(f) => Err(f),
            Ok(m) => Ok((m, Outcome::Control)),
        }
    }
}

// ---------------------------------------------------------------------------
// Indexed access
// ---------------------------------------------------------------------------
impl VmView {
    /// One-based `at:` on a pointer- or byte-format object.
    #[verifier::opaque]
    pub open spec fn at(self, recv: Value, idx: Value) -> Option<Value> {
        let a = recv.addr();
        let i = idx.int_value();
        if !recv.tagged_ptr() || !idx.tagged_int() || !self.heap.whole(a) {
            None
        } else if self.heap.hdr(a).format_field() == FMT_PTRS {
            if 1 <= i <= self.heap.nslots(a) {
                Some(self.heap.slot(a, i - 1))
            } else {
                None
            }
        } else if self.heap.bytes_ok(a) && 1 <= i <= self.heap.byte_len(a) {
            Some(crate::value::tag(self.heap.byte(a, i - 1) as i64))
        } else {
            None
        }
    }

    /// One-based `at:put:`; `None` where it is refused.
    #[verifier::opaque]
    pub open spec fn at_put(self, recv: Value, idx: Value, val: Value) -> Option<VmView> {
        let a = recv.addr();
        let i = idx.int_value();
        if !recv.tagged_ptr() || !idx.tagged_int() || !self.heap.whole(a) || self.heap.immutable(
            a,
        ) {
            None
        } else if self.heap.hdr(a).format_field() == FMT_PTRS {
            if 1 <= i <= self.heap.nslots(a) {
                Some(self.on_heap(self.heap.store(a, i - 1, val)))
            } else {
                None
            }
        } else if self.heap.bytes_ok(a) && 1 <= i <= self.heap.byte_len(a) && val.tagged_int() && 0
            <= val.int_value() <= 255 {
            Some(self.on_heap(self.heap.set_byte(a, i - 1, val.int_value() as u8)))
        } else {
            None
        }
    }

    /// The element count of a pointer- or byte-format object.
    #[verifier::opaque]
    pub open spec fn size(self, recv: Value) -> Option<Value> {
        let a = recv.addr();
        if !recv.tagged_ptr() || !self.heap.whole(a) {
            None
        } else if self.heap.hdr(a).format_field() == FMT_PTRS {
            Some(crate::value::tag(self.heap.nslots(a) as i64))
        } else if self.heap.bytes_ok(a) {
            Some(crate::value::tag(self.heap.byte_len(a) as i64))
        } else {
            None
        }
    }

    /// The class of a value; nil where the class table has none.
    pub open spec fn class_value(self, v: Value) -> Value {
        let c = self.class_no(v);
        if c < self.class_table.len() {
            self.class_table[c as int]
        } else {
            self.nil()
        }
    }
}

impl Vm {
    /// One-based `at:` on a pointer- or byte-format object.
    pub fn at_value(&self, recv: Value, idx: Value) -> (r: Option<Value>)
        requires
            self.wf(),
        ensures
            r == self@.at(recv, idx),
    {
        reveal(VmView::at);
        if !recv.is_ptr() || !idx.is_int() || !self.heap.whole(recv) {
            return None;
        }
        let i: i64 = idx.as_int();
        let h = self.heap.header_of(recv);
        if h.format() == FMT_PTRS {
            let n: u64 = self.heap.count_of(recv);
            if i >= 1 && i as u64 <= n {
                return Some(self.heap.peek(recv, (i - 1) as usize));
            }
        } else if self.heap.bytes_ok(recv) {
            let n: usize = self.heap.byte_size(recv.0 as usize);
            if i >= 1 && i as u64 <= n as u64 {
                let b: u8 = self.heap.byte(recv.0 as usize, (i - 1) as usize);
                return Some(Value::from_int(b as i64));
            }
        }
        None
    }

    /// One-based `at:put:`.
    pub fn at_put_value(&mut self, recv: Value, idx: Value, val: Value) -> (r: Option<Value>)
        requires
            old(self).wf(),
        ensures
            final(self).wf(),
            match old(self)@.at_put(recv, idx, val) {
                None => r is None && final(self)@ == old(self)@,
                Some(v) => r == Some(val) && final(self)@ == v,
            },
            final(self)@.temp_roots == old(self)@.temp_roots,
    {
        reveal(VmView::at_put);
        if !recv.is_ptr() || !idx.is_int() || !self.heap.whole(recv) {
            return None;
        }
        if self.heap.is_immutable(recv.0 as usize) {
            return None;
        }
        let i: i64 = idx.as_int();
        let h = self.heap.header_of(recv);
        if h.format() == FMT_PTRS {
            let n: u64 = self.heap.count_of(recv);
            if i >= 1 && i as u64 <= n {
                self.heap.store(recv, (i - 1) as usize, val);
                return Some(val);
            }
        } else if self.heap.bytes_ok(recv) {
            let n: usize = self.heap.byte_size(recv.0 as usize);
            if i >= 1 && i as u64 <= n as u64 && val.is_int() {
                let b: i64 = val.as_int();
                if 0 <= b && b <= 255 {
                    self.heap.set_byte(recv.0 as usize, (i - 1) as usize, b as u8);
                    return Some(val);
                }
            }
        }
        None
    }

    /// The element count of a pointer- or byte-format object.
    pub fn size_value(&self, recv: Value) -> (r: Option<Value>)
        requires
            self.wf(),
        ensures
            r == self@.size(recv),
    {
        reveal(VmView::size);
        if !recv.is_ptr() || !self.heap.whole(recv) {
            return None;
        }
        let h = self.heap.header_of(recv);
        if h.format() == FMT_PTRS {
            Some(Value::tagged(self.heap.count_of(recv) as i64))
        } else if self.heap.bytes_ok(recv) {
            Some(Value::tagged(self.heap.byte_size(recv.0 as usize) as i64))
        } else {
            None
        }
    }

    pub(crate) fn class_value(&self, v: Value) -> (c: Value)
        requires
            self.wf(),
        ensures
            c == self@.class_value(v),
    {
        let c: usize = self.class_no(v) as usize;
        if c < self.class_table.len() {
            self.class_table[c]
        } else {
            self.nil()
        }
    }
}

// ---------------------------------------------------------------------------
// Objects
// ---------------------------------------------------------------------------
impl Machine {
    #[verifier::opaque]
    pub open spec fn prim_new(self, r: int) -> Result<(Machine, Outcome), Fault> {
        let class = self.get(r);
        let h = self.vm.heap;
        if !class.tagged_ptr() || !h.class_ok(class) || h.class_format(class) != FMT_FIXED {
            self.fails(FAIL_WRONG_TYPE)
        } else {
            match self.allocated(
                h.class_number(class),
                FMT_FIXED,
                h.class_slots(class) as int,
            ) {
                Err(f) => Err(f),
                Ok((m, v)) => m.gives(v),
            }
        }
    }

    #[verifier::opaque]
    pub open spec fn prim_new_sized(self, r: int) -> Result<(Machine, Outcome), Fault> {
        let class = self.get(r);
        let size = self.get(r + 1);
        let h = self.vm.heap;
        let format = h.class_format(class);
        if !class.tagged_ptr() || !size.tagged_int() || size.int_value() < 0 || !h.class_ok(class)
            || (format != FMT_PTRS && format < FMT_BYTES_BASE) {
            self.fails(FAIL_WRONG_TYPE)
        } else if size.int_value() > usize::MAX {
            Err(Fault::OutOfMemory(self.vm))
        } else {
            match self.allocated(
                h.class_number(class),
                if format == FMT_PTRS {
                    FMT_PTRS
                } else {
                    FMT_BYTES_BASE
                },
                size.int_value() as int,
            ) {
                Err(f) => Err(f),
                Ok((m, v)) => m.gives(v),
            }
        }
    }

    /// The slot of a one-based instance-variable index; `None` where there
    /// is no such slot.
    pub open spec fn ivar_slot(self, recv: Value, idx: Value) -> Option<int> {
        let i = idx.int_value();
        if 1 <= i <= self.vm.slots(recv) && !self.vm.heap.hdr(recv.addr()).byte_format() {
            Some(i - 1)
        } else {
            None
        }
    }

    #[verifier::opaque]
    pub open spec fn prim_ivar_at(self, r: int) -> Result<(Machine, Outcome), Fault> {
        let recv = self.get(r);
        let idx = self.get(r + 1);
        if !recv.tagged_ptr() || !idx.tagged_int() {
            self.fails(FAIL_WRONG_TYPE)
        } else {
            match self.ivar_slot(recv, idx) {
                None => self.fails(FAIL_BAD_INDEX),
                Some(i) => self.gives(self.vm.field(recv, i)),
            }
        }
    }

    #[verifier::opaque]
    pub open spec fn prim_ivar_at_put(self, r: int) -> Result<(Machine, Outcome), Fault> {
        let recv = self.get(r);
        let idx = self.get(r + 1);
        let val = self.get(r + 2);
        if !recv.tagged_ptr() || !idx.tagged_int() {
            self.fails(FAIL_WRONG_TYPE)
        } else {
            match self.ivar_slot(recv, idx) {
                None => self.fails(FAIL_BAD_INDEX),
                Some(i) => self.on(self.vm.with_stored(recv, i, val)).gives(val),
            }
        }
    }

    /// Items `i..n` of an array put in the frame slots from `at` on.
    pub open spec fn spread(self, array: Value, at: int, i: int, n: int) -> Machine
        decreases n - i,
    {
        if i >= n {
            self
        } else {
            self.put(at + i, self.vm.field(array, i)).spread(array, at, i + 1, n)
        }
    }

    /// `perform:withArguments:`: the arguments replace the selector and the
    /// array, and the send is made again.
    #[verifier::opaque]
    pub open spec fn prim_perform(self, r: u8, dest: u8) -> Result<(Machine, Outcome), Fault> {
        let selector = self.get(r + 1);
        let args = self.get(r + 2);
        let n = self.vm.slots(args);
        if !selector.tagged_ptr() || !args.tagged_ptr() || !self.vm.heap.whole(args.addr())
            || self.vm.heap.hdr(args.addr()).format_field() != FMT_PTRS {
            self.fails(FAIL_WRONG_TYPE)
        } else if r + 1 + n > 250 {
            self.fails(FAIL_WRONG_ARGC)
        } else {
            match self.roomy(self.regs.frame + FRAME_RECEIVER + r + 1 + n) {
                Err(f) => Err(f),
                Ok(m) => {
                    let m1 = m.spread(args, r + 1, 0, n);
                    Ok(
                        (
                            Machine {
                                regs: Regs {
                                    pending: Pending::Resend {
                                        selector,
                                        r,
                                        dest,
                                        argc: n as u64,
                                    },
                                    ..m1.regs
                                },
                                ..m1
                            },
                            Outcome::Control,
                        ),
                    )
                },
            }
        }
    }

    /// `value` and its kin: a frame for the block, with the closure itself
    /// as receiver.
    #[verifier::opaque]
    pub open spec fn prim_block_value(self, r: u8, argc: int, dest: u8, want: int) -> Result<
        (Machine, Outcome),
        Fault,
    > {
        let closure = self.get(r as int);
        let block = self.vm.field(closure, CLOSURE_COMPILED_BLOCK as int);
        if r < FRAME_RECEIVER {
            self.fails(FAIL_UNSUPPORTED_CONTEXT)
        } else if !self.vm.is_a(closure, CLASS_BLOCKCLOSURE) {
            self.fails(FAIL_WRONG_TYPE)
        } else if argc != want || crate::vm::mh_argc(self.vm.method_bits(block)) != want {
            self.fails(FAIL_WRONG_ARGC)
        } else {
            Machine::controls(self.pushed(block, r, dest, argc, None, FLAG_BLOCKCTX))
        }
    }

    /// `valueWithArguments:`.
    #[verifier::opaque]
    pub open spec fn prim_block_value_args(self, r: u8, dest: u8) -> Result<
        (Machine, Outcome),
        Fault,
    > {
        let closure = self.get(r as int);
        let args = self.get(r + 1);
        let block = self.vm.field(closure, CLOSURE_COMPILED_BLOCK as int);
        let n = self.vm.slots(args);
        if r < FRAME_RECEIVER {
            self.fails(FAIL_UNSUPPORTED_CONTEXT)
        } else if !self.vm.is_a(closure, CLASS_BLOCKCLOSURE) || !args.tagged_ptr()
            || !self.vm.heap.whole(args.addr()) || self.vm.heap.hdr(args.addr()).format_field()
            != FMT_PTRS {
            self.fails(FAIL_WRONG_TYPE)
        } else if crate::vm::mh_argc(self.vm.method_bits(block)) != n {
            self.fails(FAIL_WRONG_ARGC)
        } else {
            match self.roomy(self.regs.frame + FRAME_RECEIVER + r + 1 + n) {
                Err(f) => Err(f),
                Ok(m) => Machine::controls(
                    m.spread(args, r + 1, 0, n).pushed(block, r, dest, n, None, FLAG_BLOCKCTX),
                ),
            }
        }
    }

    #[verifier::opaque]
    pub open spec fn prim_int(self, n: u16, r: int) -> Result<(Machine, Outcome), Fault> {
        let x = self.get(r);
        let y = self.get(r + 1);
        if !x.tagged_int() || !y.tagged_int() {
            self.fails(FAIL_WRONG_TYPE)
        } else {
            match crate::arith::int_op(n, x.int_value(), y.int_value()) {
                None => self.fails(FAIL_OVERFLOW),
                Some(z) => self.gives(crate::value::tag(z)),
            }
        }
    }

    #[verifier::opaque]
    pub open spec fn prim_int_compare(self, n: u16, r: int) -> Result<(Machine, Outcome), Fault> {
        let x = self.get(r);
        let y = self.get(r + 1);
        if !x.tagged_int() || !y.tagged_int() {
            self.fails(FAIL_WRONG_TYPE)
        } else {
            self.gives(self.vm.bool_v(int_test(n, x.int_value(), y.int_value())))
        }
    }

    #[verifier::opaque]
    pub open spec fn prim_hash(self, r: int) -> Result<(Machine, Outcome), Fault> {
        let recv = self.get(r);
        if !recv.tagged_int() && !self.vm.heap.plausible(recv.addr()) {
            self.fails(FAIL_WRONG_TYPE)
        } else {
            let (vm, n) = self.vm.hashed(recv);
            self.on(vm).gives(crate::value::tag(n))
        }
    }

    #[verifier::opaque]
    pub open spec fn prim_register_class(self, r: int) -> Result<(Machine, Outcome), Fault> {
        let class = self.get(r);
        if !class.tagged_ptr() || !self.vm.heap.shaped(class.addr(), BEHAVIOR_CLASS_INDEX + 1)
            || self.vm.class_table.len() > MAX_CLASS_INDEX {
            self.fails(FAIL_WRONG_TYPE)
        } else {
            self.on(self.vm.class_registered(class)).gives(
                crate::value::tag(self.vm.class_table.len() as i64),
            )
        }
    }

    /// The selector is one of the specialized ones.
    pub open spec fn specialized(self, selector: Value) -> bool {
        let sels = self.vm.specials[SPECIAL_SPECIALIZED_SELECTORS as int];
        let n = self.vm.slots(sels);
        self.vm.heap.slot_index(sels.addr(), selector, 0, n) < n
    }

    /// Install a method; the specialized selectors of SmallInteger are
    /// sealed, and installs over them are ignored.
    #[verifier::opaque]
    pub open spec fn prim_install(self, r: int) -> Result<(Machine, Outcome), Fault> {
        let class = self.get(r);
        let selector = self.get(r + 1);
        let method = self.get(r + 2);
        if !class.tagged_ptr() || !selector.tagged_ptr() || !method.tagged_ptr() {
            self.fails(FAIL_WRONG_TYPE)
        } else if CLASS_SMALLINTEGER < self.vm.class_table.len() && class
            == self.vm.class_table[CLASS_SMALLINTEGER as int] && self.specialized(selector) {
            self.gives(method)
        } else {
            match self.vm.installed(class, selector, method) {
                Err(f) => Err(f),
                Ok(vm) => self.on(vm).gives(method),
            }
        }
    }
}

/// An integer comparison by primitive number.
pub open spec fn int_test(n: u16, a: i64, b: i64) -> bool {
    if n == PRIM_INT_LT {
        a < b
    } else if n == PRIM_INT_GT {
        a > b
    } else if n == PRIM_INT_LE {
        a <= b
    } else if n == PRIM_INT_GE {
        a >= b
    } else {
        a == b
    }
}

pub(crate) fn compare(n: u16, a: i64, b: i64) -> (r: bool)
    ensures
        r == int_test(n, a, b),
{
    if n == PRIM_INT_LT {
        a < b
    } else if n == PRIM_INT_GT {
        a > b
    } else if n == PRIM_INT_LE {
        a <= b
    } else if n == PRIM_INT_GE {
        a >= b
    } else {
        a == b
    }
}

impl Vm {
    pub(crate) fn prim_new(&mut self, regs: &mut Regs, r: u64) -> (res: Result<
        PrimOutcome,
        VmError,
    >)
        requires
            old(self).wf(),
            old(regs).ok(),
            r <= 255,
        ensures
            final(self).wf(),
            final(regs).ok(),
            crate::prims::prim_ran(
                res,
                crate::machine::at(final(self)@, *final(regs)),
                crate::machine::at(old(self)@, *old(regs)).prim_new(r as int),
            ),
            res is Ok ==> final(self)@.temp_roots.len() == old(self)@.temp_roots.len(),
            final(self)@.temp_roots.len() >= old(self)@.temp_roots.len(),
    {
        reveal(Machine::prim_new);
        let class = self.get(regs, r);
        if !class.is_ptr() || !self.class_ok(class) {
            return Ok(PrimOutcome::Fail(FAIL_WRONG_TYPE));
        }
        let (format, nslots) = self.class_format_and_slots(class);
        if format != FMT_FIXED {
            return Ok(PrimOutcome::Fail(FAIL_WRONG_TYPE));
        }
        let idx: u32 = self.class_number(class);
        let v = self.alloc_gc(regs, idx, FMT_FIXED, nslots)?;
        Ok(PrimOutcome::Value(v))
    }

    pub(crate) fn prim_new_sized(&mut self, regs: &mut Regs, r: u64) -> (res: Result<
        PrimOutcome,
        VmError,
    >)
        requires
            old(self).wf(),
            old(regs).ok(),
            r <= 255,
        ensures
            final(self).wf(),
            final(regs).ok(),
            crate::prims::prim_ran(
                res,
                crate::machine::at(final(self)@, *final(regs)),
                crate::machine::at(old(self)@, *old(regs)).prim_new_sized(r as int),
            ),
            res is Ok ==> final(self)@.temp_roots.len() == old(self)@.temp_roots.len(),
            final(self)@.temp_roots.len() >= old(self)@.temp_roots.len(),
    {
        reveal(Machine::prim_new_sized);
        let class = self.get(regs, r);
        let size = self.get(regs, r + 1);
        if !class.is_ptr() || !size.is_int() || size.as_int() < 0 || !self.class_ok(class) {
            return Ok(PrimOutcome::Fail(FAIL_WRONG_TYPE));
        }
        let (format, _) = self.class_format_and_slots(class);
        if format != FMT_PTRS && format < FMT_BYTES_BASE {
            return Ok(PrimOutcome::Fail(FAIL_WRONG_TYPE));
        }
        let n: i64 = size.as_int();
        if n as u64 > usize::MAX as u64 {
            return Err(VmError::OutOfMemory);
        }
        let idx: u32 = self.class_number(class);
        let fmt: u64 = if format == FMT_PTRS {
            FMT_PTRS
        } else {
            FMT_BYTES_BASE
        };
        let v = self.alloc_gc(regs, idx, fmt, n as usize)?;
        Ok(PrimOutcome::Value(v))
    }

    fn ivar_slot(&self, recv: Value, idx: Value) -> (i: Option<u64>)
        requires
            self.wf(),
        ensures
            forall|regs: Regs| (#[trigger] crate::machine::at(self@, regs).ivar_slot(recv, idx)) == (match i {
                Some(i) => Some(i as int),
                None => None,
            }),
    {
        let i: i64 = idx.as_int();
        let n: u64 = self.slots(recv);
        proof {
            reveal(VmView::slots);
        }
        if i >= 1 && i as u64 <= n && !self.heap.header_of(recv).is_bytes() {
            Some((i - 1) as u64)
        } else {
            None
        }
    }

    pub(crate) fn prim_ivar_at(&mut self, regs: &mut Regs, r: u64) -> (res: Result<
        PrimOutcome,
        VmError,
    >)
        requires
            old(self).wf(),
            old(regs).ok(),
            r <= 255,
        ensures
            final(self).wf(),
            final(regs).ok(),
            crate::prims::prim_ran(
                res,
                crate::machine::at(final(self)@, *final(regs)),
                crate::machine::at(old(self)@, *old(regs)).prim_ivar_at(r as int),
            ),
            res is Ok ==> final(self)@.temp_roots.len() == old(self)@.temp_roots.len(),
            final(self)@.temp_roots.len() >= old(self)@.temp_roots.len(),
    {
        reveal(Machine::prim_ivar_at);
        let recv = self.get(regs, r);
        let idx = self.get(regs, r + 1);
        if !recv.is_ptr() || !idx.is_int() {
            return Ok(PrimOutcome::Fail(FAIL_WRONG_TYPE));
        }
        match self.ivar_slot(recv, idx) {
            None => Ok(PrimOutcome::Fail(FAIL_BAD_INDEX)),
            Some(i) => Ok(PrimOutcome::Value(self.field(recv, i))),
        }
    }

    pub(crate) fn prim_ivar_at_put(&mut self, regs: &mut Regs, r: u64) -> (res: Result<
        PrimOutcome,
        VmError,
    >)
        requires
            old(self).wf(),
            old(regs).ok(),
            r <= 255,
        ensures
            final(self).wf(),
            final(regs).ok(),
            crate::prims::prim_ran(
                res,
                crate::machine::at(final(self)@, *final(regs)),
                crate::machine::at(old(self)@, *old(regs)).prim_ivar_at_put(r as int),
            ),
            res is Ok ==> final(self)@.temp_roots.len() == old(self)@.temp_roots.len(),
            final(self)@.temp_roots.len() >= old(self)@.temp_roots.len(),
    {
        reveal(Machine::prim_ivar_at_put);
        let recv = self.get(regs, r);
        let idx = self.get(regs, r + 1);
        let val = self.get(regs, r + 2);
        if !recv.is_ptr() || !idx.is_int() {
            return Ok(PrimOutcome::Fail(FAIL_WRONG_TYPE));
        }
        match self.ivar_slot(recv, idx) {
            None => Ok(PrimOutcome::Fail(FAIL_BAD_INDEX)),
            Some(i) => {
                self.store_field(recv, i, val);
                Ok(PrimOutcome::Value(val))
            },
        }
    }

    fn spread(&mut self, regs: &Regs, array: Value, at: u64, n: u64)
        requires
            old(self).wf(),
            regs.ok(),
            at <= 1000,
            n <= 1000,
        ensures
            final(self).wf(),
            crate::machine::at(final(self)@, *regs) == crate::machine::at(
                old(self)@,
                *regs,
            ).spread(array, at as int, 0, n as int),
            final(self)@.temp_roots == old(self)@.temp_roots,
    {
        let mut i: u64 = 0;
        while i < n
            invariant
                i <= n <= 1000,
                at <= 1000,
                self.wf(),
                regs.ok(),
                self@.temp_roots == old(self)@.temp_roots,
                crate::machine::at(old(self)@, *regs).spread(array, at as int, 0, n as int)
                    == crate::machine::at(self@, *regs).spread(
                    array,
                    at as int,
                    i as int,
                    n as int,
                ),
            decreases n - i,
        {
            let v = self.field(array, i);
            self.put(regs, at + i, v);
            i = i + 1;
        }
    }

    /// Whether a value is a pointer-format object all of which can be read.
    fn is_array(&self, v: Value) -> (b: bool)
        requires
            self.wf(),
        ensures
            b == (v.tagged_ptr() && self@.heap.whole(v.addr()) && self@.heap.hdr(
                v.addr(),
            ).format_field() == FMT_PTRS),
    {
        v.is_ptr() && self.heap.whole(v) && self.heap.header_of(v).format() == FMT_PTRS
    }

    pub(crate) fn prim_perform(&mut self, regs: &mut Regs, r: u8, dest: u8) -> (res: Result<
        PrimOutcome,
        VmError,
    >)
        requires
            old(self).wf(),
            old(regs).ok(),
        ensures
            final(self).wf(),
            final(regs).ok(),
            crate::prims::prim_ran(
                res,
                crate::machine::at(final(self)@, *final(regs)),
                crate::machine::at(old(self)@, *old(regs)).prim_perform(r, dest),
            ),
            res is Ok ==> final(self)@.temp_roots.len() == old(self)@.temp_roots.len(),
            final(self)@.temp_roots.len() >= old(self)@.temp_roots.len(),
    {
        reveal(Machine::prim_perform);
        let selector = self.get(regs, r as u64 + 1);
        let args = self.get(regs, r as u64 + 2);
        if !selector.is_ptr() || !self.is_array(args) {
            return Ok(PrimOutcome::Fail(FAIL_WRONG_TYPE));
        }
        let n: u64 = self.slots(args);
        if r as u64 + 1 + n > 250 {
            return Ok(PrimOutcome::Fail(FAIL_WRONG_ARGC));
        }
        self.make_room(regs, regs.frame + FRAME_RECEIVER as u64 + r as u64 + 1 + n)?;
        self.spread(regs, args, r as u64 + 1, n);
        regs.pending = Pending::Resend { selector, r, dest, argc: n };
        Ok(PrimOutcome::Control)
    }

    pub(crate) fn prim_block_value(&mut self, regs: &mut Regs, r: u8, argc: u64, dest: u8, want: u64) -> (res: Result<
        PrimOutcome,
        VmError,
    >)
        requires
            old(self).wf(),
            old(regs).ok(),
            argc <= 0xffff,
        ensures
            final(self).wf(),
            final(regs).ok(),
            crate::prims::prim_ran(
                res,
                crate::machine::at(final(self)@, *final(regs)),
                crate::machine::at(old(self)@, *old(regs)).prim_block_value(r, argc as int, dest, want as int),
            ),
            res is Ok ==> final(self)@.temp_roots.len() == old(self)@.temp_roots.len(),
            final(self)@.temp_roots.len() >= old(self)@.temp_roots.len(),
    {
        reveal(Machine::prim_block_value);
        if (r as usize) < FRAME_RECEIVER {
            return Ok(PrimOutcome::Fail(FAIL_UNSUPPORTED_CONTEXT));
        }
        let closure = self.get(regs, r as u64);
        if !self.is_a(closure, CLASS_BLOCKCLOSURE) {
            return Ok(PrimOutcome::Fail(FAIL_WRONG_TYPE));
        }
        let block = self.field(closure, CLOSURE_COMPILED_BLOCK as u64);
        if argc != want || self.argc_of(block) != want {
            return Ok(PrimOutcome::Fail(FAIL_WRONG_ARGC));
        }
        self.push_frame(regs, block, r, dest, argc, None, FLAG_BLOCKCTX)?;
        Ok(PrimOutcome::Control)
    }

    pub(crate) fn prim_block_value_args(&mut self, regs: &mut Regs, r: u8, dest: u8) -> (res: Result<
        PrimOutcome,
        VmError,
    >)
        requires
            old(self).wf(),
            old(regs).ok(),
        ensures
            final(self).wf(),
            final(regs).ok(),
            crate::prims::prim_ran(
                res,
                crate::machine::at(final(self)@, *final(regs)),
                crate::machine::at(old(self)@, *old(regs)).prim_block_value_args(r, dest),
            ),
            res is Ok ==> final(self)@.temp_roots.len() == old(self)@.temp_roots.len(),
            final(self)@.temp_roots.len() >= old(self)@.temp_roots.len(),
    {
        reveal(Machine::prim_block_value_args);
        if (r as usize) < FRAME_RECEIVER {
            return Ok(PrimOutcome::Fail(FAIL_UNSUPPORTED_CONTEXT));
        }
        let closure = self.get(regs, r as u64);
        let args = self.get(regs, r as u64 + 1);
        if !self.is_a(closure, CLASS_BLOCKCLOSURE) || !self.is_array(args) {
            return Ok(PrimOutcome::Fail(FAIL_WRONG_TYPE));
        }
        let block = self.field(closure, CLOSURE_COMPILED_BLOCK as u64);
        let n: u64 = self.slots(args);
        if self.argc_of(block) != n {
            return Ok(PrimOutcome::Fail(FAIL_WRONG_ARGC));
        }
        self.make_room(regs, regs.frame + FRAME_RECEIVER as u64 + r as u64 + 1 + n)?;
        self.spread(regs, args, r as u64 + 1, n);
        self.push_frame(regs, block, r, dest, n, None, FLAG_BLOCKCTX)?;
        Ok(PrimOutcome::Control)
    }

    pub(crate) fn prim_int_binary(&mut self, regs: &mut Regs, n: u16, r: u64) -> (res: Result<
        PrimOutcome,
        VmError,
    >)
        requires
            old(self).wf(),
            old(regs).ok(),
            r <= 255,
        ensures
            final(self).wf(),
            final(regs).ok(),
            crate::prims::prim_ran(
                res,
                crate::machine::at(final(self)@, *final(regs)),
                crate::machine::at(old(self)@, *old(regs)).prim_int(n, r as int),
            ),
            res is Ok ==> final(self)@.temp_roots.len() == old(self)@.temp_roots.len(),
            final(self)@.temp_roots.len() >= old(self)@.temp_roots.len(),
    {
        reveal(Machine::prim_int);
        let x = self.get(regs, r);
        let y = self.get(regs, r + 1);
        if !x.is_int() || !y.is_int() {
            return Ok(PrimOutcome::Fail(FAIL_WRONG_TYPE));
        }
        match int_binary(n, x.as_int(), y.as_int()) {
            Some(z) => Ok(PrimOutcome::Value(Value::tagged(z))),
            None => Ok(PrimOutcome::Fail(FAIL_OVERFLOW)),
        }
    }

    pub(crate) fn prim_int_compare(&mut self, regs: &mut Regs, n: u16, r: u64) -> (res: Result<
        PrimOutcome,
        VmError,
    >)
        requires
            old(self).wf(),
            old(regs).ok(),
            r <= 255,
        ensures
            final(self).wf(),
            final(regs).ok(),
            crate::prims::prim_ran(
                res,
                crate::machine::at(final(self)@, *final(regs)),
                crate::machine::at(old(self)@, *old(regs)).prim_int_compare(n, r as int),
            ),
            res is Ok ==> final(self)@.temp_roots.len() == old(self)@.temp_roots.len(),
            final(self)@.temp_roots.len() >= old(self)@.temp_roots.len(),
    {
        reveal(Machine::prim_int_compare);
        let x = self.get(regs, r);
        let y = self.get(regs, r + 1);
        if !x.is_int() || !y.is_int() {
            return Ok(PrimOutcome::Fail(FAIL_WRONG_TYPE));
        }
        Ok(PrimOutcome::Value(self.bool_v(compare(n, x.as_int(), y.as_int()))))
    }

    pub(crate) fn prim_hash(&mut self, regs: &mut Regs, r: u64) -> (res: Result<
        PrimOutcome,
        VmError,
    >)
        requires
            old(self).wf(),
            old(regs).ok(),
            r <= 255,
        ensures
            final(self).wf(),
            final(regs).ok(),
            crate::prims::prim_ran(
                res,
                crate::machine::at(final(self)@, *final(regs)),
                crate::machine::at(old(self)@, *old(regs)).prim_hash(r as int),
            ),
            res is Ok ==> final(self)@.temp_roots.len() == old(self)@.temp_roots.len(),
            final(self)@.temp_roots.len() >= old(self)@.temp_roots.len(),
    {
        reveal(Machine::prim_hash);
        let recv = self.get(regs, r);
        if !recv.is_int() && !self.heap.plausible_at(recv.0) {
            return Ok(PrimOutcome::Fail(FAIL_WRONG_TYPE));
        }
        let n: i64 = self.identity_hash_of(recv);
        Ok(PrimOutcome::Value(Value::tagged(n)))
    }

    pub(crate) fn prim_register_class(&mut self, regs: &mut Regs, r: u64) -> (res: Result<
        PrimOutcome,
        VmError,
    >)
        requires
            old(self).wf(),
            old(regs).ok(),
            r <= 255,
        ensures
            final(self).wf(),
            final(regs).ok(),
            crate::prims::prim_ran(
                res,
                crate::machine::at(final(self)@, *final(regs)),
                crate::machine::at(old(self)@, *old(regs)).prim_register_class(r as int),
            ),
            res is Ok ==> final(self)@.temp_roots.len() == old(self)@.temp_roots.len(),
            final(self)@.temp_roots.len() >= old(self)@.temp_roots.len(),
    {
        reveal(Machine::prim_register_class);
        let class = self.get(regs, r);
        if !class.is_ptr() || !self.heap.shaped(class, BEHAVIOR_CLASS_INDEX + 1)
            || self.class_table.len() > MAX_CLASS_INDEX as usize {
            return Ok(PrimOutcome::Fail(FAIL_WRONG_TYPE));
        }
        let idx: u32 = self.register_class(class);
        Ok(PrimOutcome::Value(Value::tagged(idx as i64)))
    }

    fn is_specialized(&self, selector: Value) -> (b: bool)
        requires
            self.wf(),
        ensures
            forall|regs: Regs| (#[trigger] crate::machine::at(self@, regs).specialized(selector)) == b,
    {
        let sels = self.specials[SPECIAL_SPECIALIZED_SELECTORS];
        proof {
            reveal(VmView::slots);
        }
        let n: u64 = self.slots(sels);
        if n == 0 {
            return false;
        }
        self.heap.slot_index(sels, selector, n as usize) < n as usize
    }

    pub(crate) fn prim_install(&mut self, regs: &mut Regs, r: u64) -> (res: Result<
        PrimOutcome,
        VmError,
    >)
        requires
            old(self).wf(),
            old(regs).ok(),
            r <= 255,
        ensures
            final(self).wf(),
            final(regs).ok(),
            crate::prims::prim_ran(
                res,
                crate::machine::at(final(self)@, *final(regs)),
                crate::machine::at(old(self)@, *old(regs)).prim_install(r as int),
            ),
            res is Ok ==> final(self)@.temp_roots.len() == old(self)@.temp_roots.len(),
            final(self)@.temp_roots.len() >= old(self)@.temp_roots.len(),
    {
        reveal(Machine::prim_install);
        let class = self.get(regs, r);
        let selector = self.get(regs, r + 1);
        let method = self.get(regs, r + 2);
        if !class.is_ptr() || !selector.is_ptr() || !method.is_ptr() {
            return Ok(PrimOutcome::Fail(FAIL_WRONG_TYPE));
        }
        if (CLASS_SMALLINTEGER as usize) < self.class_table.len() && class
            == self.class_table[CLASS_SMALLINTEGER as usize] && self.is_specialized(selector) {
            return Ok(PrimOutcome::Value(method));
        }
        self.install_method(class, selector, method)?;
        Ok(PrimOutcome::Value(method))
    }
}

} // verus!
