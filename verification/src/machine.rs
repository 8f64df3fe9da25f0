//! The interpreter's registers and frames: slot access, register load and
//! save, allocation at a safepoint, stack growth, frame push and return, and
//! unwinding.
//!
//! Every access to the heap from here on is guarded: a slot that lies
//! outside of its object reads as nil, and a store there is dropped. Code
//! that stays inside its objects never notices.

use crate::heap::MAX_CLASS_INDEX;
use crate::value::Value;
use crate::vm::{Fault, Vm, VmError, VmView};
use crate::treaty::{
    FMT_FIXED, FMT_PTRS, FRAME_METHOD, FRAME_RECEIVER, METHOD_BYTECODES, METHOD_HEADER,
    METHOD_LITERALS, METHOD_SEND_SITES, MH_ARGC_SHIFT, MH_FRAME_SLOTS_SHIFT,
    MH_HANDLER_SLOT_BASE_SHIFT, PROCESS_FRAME_OFFSET, PROCESS_PC, PROCESS_STACK, TAG_INT_BIT,
};
use vstd::prelude::*;

verus! {

/// What the run loop has to do before the next instruction.
#[derive(Clone, Copy, PartialEq, Eq, Structural, Debug)]
pub enum Pending {
    /// Nothing: fetch and execute.
    Nothing,
    /// Send `selector` again with arguments already in place.
    Resend { selector: Value, r: u8, dest: u8, argc: u64 },
    /// Switch to a runnable process, or wait for a timer.
    Idle,
    /// The host is asked for something; its reply completes the call.
    Host(HostCall),
    /// The host is asked to save an image in the middle of a run.
    Snapshot,
}

/// A primitive that waits for the host.
#[derive(Clone, Copy, PartialEq, Eq, Structural, Debug)]
pub struct HostCall {
    pub prim: u16,
    pub method: Value,
    pub r: u8,
    pub dest: u8,
    pub argc: u64,
    /// Entered by a PRIM instruction of the running method, not by a send.
    pub inline: bool,
}

/// The interpreter's registers.
#[derive(Clone, Copy, PartialEq, Eq, Structural, Debug)]
pub struct Regs {
    /// Stack object of the active process.
    pub stack: Value,
    /// Slot index of the current frame's first word.
    pub frame: u64,
    /// Index of the next instruction.
    pub pc: u64,
    pub method: Value,
    // Parts of the current method.
    pub code: Value,
    pub lits: Value,
    pub sites: Value,
    /// The collection count these were derived at.
    pub epoch: u64,
    /// Destination slot of the most recent MKCLOSURE.
    pub closure_reg: Option<u8>,
    /// Set when the base frame returns: the process's final value.
    pub halted: Option<Value>,
    pub pending: Pending,
    /// The next SEND was polled and counted before.
    pub replay: bool,
}

/// Beyond every offset in a stack and every instruction of a method.
pub const OFFSET_LIMIT: u64 = 0x4000_0000_0000_0000;

/// A frame offset or instruction index held in a slot; a negative integer
/// is beyond every stack and every method.
pub open spec fn offset_of(n: i64) -> u64 {
    if n >= 0 {
        n as u64
    } else {
        OFFSET_LIMIT
    }
}

/// The machine together with the interpreter's registers.
#[verifier::ext_equal]
pub struct Machine {
    pub vm: VmView,
    pub regs: Regs,
}

pub open spec fn at(vm: VmView, regs: Regs) -> Machine {
    Machine { vm, regs }
}

impl Regs {
    /// The frame offset and the instruction index can be computed with.
    pub open spec fn ok(self) -> bool {
        self.frame <= OFFSET_LIMIT && self.pc <= OFFSET_LIMIT
    }
}

// ---------------------------------------------------------------------------
// Guarded access
// ---------------------------------------------------------------------------
impl VmView {
    /// Slot `i` of an object; nil where there is no such slot.
    #[verifier::opaque]
    pub open spec fn field(self, o: Value, i: int) -> Value {
        if 0 <= i && self.heap.shaped(o.addr(), i + 1) {
            self.heap.slot(o.addr(), i)
        } else {
            self.nil()
        }
    }

    /// The integer in slot `i` of an object.
    pub open spec fn int_field(self, o: Value, i: int) -> i64 {
        self.field(o, i).int_value()
    }

    /// Slot `i` of an object set, without the write barrier.
    #[verifier::opaque]
    pub open spec fn with_field(self, o: Value, i: int, v: Value) -> VmView {
        if 0 <= i && self.heap.shaped(o.addr(), i + 1) {
            self.on_heap(self.heap.set_slot(o.addr(), i, v))
        } else {
            self
        }
    }

    /// Slot `i` of an object set, with the write barrier.
    #[verifier::opaque]
    pub open spec fn with_stored(self, o: Value, i: int, v: Value) -> VmView {
        if 0 <= i && self.heap.shaped(o.addr(), i + 1) {
            self.on_heap(self.heap.store(o.addr(), i, v))
        } else {
            self
        }
    }

    /// Slots of an object all of which lies in one space; zero otherwise.
    #[verifier::opaque]
    pub open spec fn slots(self, o: Value) -> int {
        if self.heap.whole(o.addr()) {
            self.heap.nslots(o.addr()) as int
        } else {
            0
        }
    }

    /// The class index of a value; zero where its header cannot be read.
    #[verifier::opaque]
    pub open spec fn class_no(self, v: Value) -> u32 {
        if v.tagged_int() || self.heap.plausible(v.addr()) {
            self.class_index(v)
        } else {
            0
        }
    }

    /// An object reference with the given class index.
    pub open spec fn is_a(self, v: Value, class: u32) -> bool {
        v.tagged_ptr() && self.class_no(v) == class
    }

    /// Instruction `i` of a code object.
    #[verifier::opaque]
    pub open spec fn insn(self, code: Value, i: int) -> Option<u32> {
        if 0 <= i && self.heap.bytes_ok(code.addr()) && 4 * i + 4 <= self.heap.byte_len(
            code.addr(),
        ) {
            Some(self.heap.insn(code.addr(), i))
        } else {
            None
        }
    }

    /// The header integer of a method.
    pub open spec fn method_bits(self, method: Value) -> i64 {
        self.int_field(method, METHOD_HEADER as int)
    }
}

impl Vm {
    /// Slot `i` of an object; nil where there is no such slot.
    pub(crate) fn field(&self, o: Value, i: u64) -> (v: Value)
        requires
            self.wf(),
        ensures
            v == self@.field(o, i as int),
    {
        reveal(VmView::field);
        if i < usize::MAX as u64 && self.heap.shaped(o, i as usize + 1) {
            self.heap.peek(o, i as usize)
        } else {
            self.nil()
        }
    }

    /// The integer in slot `i` of an object.
    pub(crate) fn int_field(&self, o: Value, i: u64) -> (n: i64)
        requires
            self.wf(),
        ensures
            n == self@.int_field(o, i as int),
            crate::value::SMALLINT_MIN <= n <= crate::value::SMALLINT_MAX,
    {
        self.field(o, i).as_int()
    }

    pub(crate) fn set_field(&mut self, o: Value, i: u64, v: Value)
        requires
            old(self).wf(),
        ensures
            final(self).wf(),
            final(self)@ == old(self)@.with_field(o, i as int, v),
            final(self)@.temp_roots == old(self)@.temp_roots,
            final(self)@.heap.layout() == old(self)@.heap.layout(),
    {
        reveal(VmView::with_field);
        if i < usize::MAX as u64 && self.heap.shaped(o, i as usize + 1) {
            self.heap.poke(o, i as usize, v);
        }
    }

    pub(crate) fn store_field(&mut self, o: Value, i: u64, v: Value)
        requires
            old(self).wf(),
        ensures
            final(self).wf(),
            final(self)@ == old(self)@.with_stored(o, i as int, v),
            final(self)@.temp_roots == old(self)@.temp_roots,
            final(self)@.heap.layout() == old(self)@.heap.layout(),
    {
        reveal(VmView::with_stored);
        if i < usize::MAX as u64 && self.heap.shaped(o, i as usize + 1) {
            self.heap.store(o, i as usize, v);
        }
    }

    pub(crate) fn slots(&self, o: Value) -> (n: u64)
        requires
            self.wf(),
        ensures
            n == self@.slots(o),
            n <= 0x0800_0000_0000_0000,
            n <= usize::MAX,
    {
        reveal(VmView::slots);
        if self.heap.whole(o) {
            self.heap.count_of(o)
        } else {
            0
        }
    }

    pub(crate) fn class_no(&self, v: Value) -> (c: u32)
        requires
            self.wf(),
        ensures
            c == self@.class_no(v),
            c <= MAX_CLASS_INDEX,
    {
        reveal(VmView::class_no);
        if v.is_int() || self.heap.plausible_at(v.0) {
            self.class_index_of(v)
        } else {
            0
        }
    }

    pub(crate) fn is_a(&self, v: Value, class: u32) -> (b: bool)
        requires
            self.wf(),
        ensures
            b == self@.is_a(v, class),
    {
        v.is_ptr() && self.class_no(v) == class
    }

    pub(crate) fn insn(&self, code: Value, i: u64) -> (w: Option<u32>)
        requires
            self.wf(),
        ensures
            w == self@.insn(code, i as int),
            w is Some ==> i < OFFSET_LIMIT,
    {
        reveal(VmView::insn);
        if !self.heap.bytes_ok(code) {
            return None;
        }
        let len: u64 = self.heap.byte_size(code.0 as usize) as u64;
        if len >= 4 && i <= (len - 4) / 4 {
            proof {
                let a = code.addr();
                let h = self@.heap;
                assert(4 * i + 4 <= len <= 8 * h.nslots(a));
                assert(a + 8 + 8 * h.nslots(a) <= h.limit_of(a));
                assert(h.plausible(a + 8 + 8 * (i as int / 2)));
            }
            Some(self.heap.fetch(code, i as usize))
        } else {
            None
        }
    }

    pub(crate) fn frame_slots_of(&self, method: Value) -> (n: u64)
        requires
            self.wf(),
        ensures
            n == crate::vm::mh_frame_slots(self@.method_bits(method)),
            n <= 255,
    {
        let bits: i64 = self.int_field(method, METHOD_HEADER as u64);
        proof {
            crate::vm::lemma_mh_ranges(bits);
        }
        ((bits >> MH_FRAME_SLOTS_SHIFT) & 0xFF) as u64
    }

    pub(crate) fn argc_of(&self, method: Value) -> (n: u64)
        requires
            self.wf(),
        ensures
            n == crate::vm::mh_argc(self@.method_bits(method)),
            n <= 15,
    {
        let bits: i64 = self.int_field(method, METHOD_HEADER as u64);
        proof {
            crate::vm::lemma_mh_ranges(bits);
        }
        ((bits >> MH_ARGC_SHIFT) & 0xF) as u64
    }

    pub(crate) fn handler_base_of(&self, method: Value) -> (n: u64)
        requires
            self.wf(),
        ensures
            n == crate::vm::mh_handler_base(self@.method_bits(method)),
            n <= 255,
    {
        let bits: i64 = self.int_field(method, METHOD_HEADER as u64);
        proof {
            crate::vm::lemma_mh_ranges(bits);
        }
        ((bits >> MH_HANDLER_SLOT_BASE_SHIFT) & 0xFF) as u64
    }
}

pub(crate) fn offset_from(n: i64) -> (o: u64)
    ensures
        o == offset_of(n),
        n <= crate::value::SMALLINT_MAX ==> o <= OFFSET_LIMIT,
{
    if n >= 0 {
        n as u64
    } else {
        OFFSET_LIMIT
    }
}

impl Value {
    /// The tagged word of an integer, whatever its size.
    pub(crate) fn tagged(n: i64) -> (v: Value)
        ensures
            v == crate::value::tag(n),
    {
        Value(((n as u64) << 1) | TAG_INT_BIT)
    }
}

// ---------------------------------------------------------------------------
// Registers
// ---------------------------------------------------------------------------
impl VmView {
    /// The registers with the parts of the current method looked up again.
    #[verifier::opaque]
    pub open spec fn reloaded(self, regs: Regs) -> Regs {
        let method = self.field(regs.stack, regs.frame + FRAME_METHOD);
        Regs {
            method,
            code: self.field(method, METHOD_BYTECODES as int),
            lits: self.field(method, METHOD_LITERALS as int),
            sites: self.field(method, METHOD_SEND_SITES as int),
            ..regs
        }
    }

    /// The registers that the active process's saved state gives.
    #[verifier::opaque]
    pub open spec fn loaded(self) -> Regs {
        let p = self.active;
        let nil = self.nil();
        self.reloaded(
            Regs {
                stack: self.field(p, PROCESS_STACK as int),
                frame: offset_of(self.int_field(p, PROCESS_FRAME_OFFSET as int)),
                pc: offset_of(self.int_field(p, PROCESS_PC as int)),
                method: nil,
                code: nil,
                lits: nil,
                sites: nil,
                epoch: self.epoch,
                closure_reg: None,
                halted: None,
                pending: Pending::Nothing,
                replay: false,
            },
        )
    }

    /// The active process's saved state after the registers were saved.
    #[verifier::opaque]
    pub open spec fn saved(self, regs: Regs) -> VmView {
        self.with_field(
            self.active,
            PROCESS_FRAME_OFFSET as int,
            crate::value::tag(regs.frame as i64),
        ).with_field(self.active, PROCESS_PC as int, crate::value::tag(regs.pc as i64))
    }

    /// The registers after a possible collection.
    #[verifier::opaque]
    pub open spec fn refreshed(self, regs: Regs) -> Regs {
        if regs.epoch != self.epoch {
            Regs {
                epoch: self.epoch,
                ..self.reloaded(
                    Regs { stack: self.field(self.active, PROCESS_STACK as int), ..regs },
                )
            }
        } else {
            regs
        }
    }

    /// The value of a frame slot; slot 0 is the receiver.
    pub open spec fn get(self, regs: Regs, k: int) -> Value {
        self.field(regs.stack, regs.frame + FRAME_RECEIVER + k)
    }

    /// A frame slot set. The running stack is always a root, so there is no
    /// write barrier.
    pub open spec fn put(self, regs: Regs, k: int, v: Value) -> VmView {
        self.with_field(regs.stack, regs.frame + FRAME_RECEIVER + k, v)
    }
}

/// Slot index of bytecode slot `k` of the current frame.
pub(crate) fn bslot(regs: &Regs, k: u64) -> (i: u64)
    requires
        regs.ok(),
        k <= 0xffff_ffff,
    ensures
        i == regs.frame + FRAME_RECEIVER + k,
{
    regs.frame + FRAME_RECEIVER as u64 + k
}

impl Vm {
    pub fn reload_code(&self, regs: &mut Regs)
        requires
            self.wf(),
            old(regs).ok(),
        ensures
            *final(regs) == self@.reloaded(*old(regs)),
    {
        reveal(VmView::reloaded);
        regs.method = self.field(regs.stack, regs.frame + FRAME_METHOD as u64);
        regs.code = self.field(regs.method, METHOD_BYTECODES as u64);
        regs.lits = self.field(regs.method, METHOD_LITERALS as u64);
        regs.sites = self.field(regs.method, METHOD_SEND_SITES as u64);
    }

    /// The registers that the active process's saved state gives.
    pub fn load_regs(&self) -> (regs: Regs)
        requires
            self.wf(),
        ensures
            regs == self@.loaded(),
            regs.ok(),
    {
        reveal(VmView::loaded);
        reveal(VmView::reloaded);
        let p = self.active_process;
        let nil = self.nil();
        let mut regs = Regs {
            stack: self.field(p, PROCESS_STACK as u64),
            frame: offset_from(self.int_field(p, PROCESS_FRAME_OFFSET as u64)),
            pc: offset_from(self.int_field(p, PROCESS_PC as u64)),
            method: nil,
            code: nil,
            lits: nil,
            sites: nil,
            epoch: self.gc_epoch,
            closure_reg: None,
            halted: None,
            pending: Pending::Nothing,
            replay: false,
        };
        self.reload_code(&mut regs);
        regs
    }

    pub fn save_regs(&mut self, regs: &Regs)
        requires
            old(self).wf(),
        ensures
            final(self).wf(),
            final(self)@ == old(self)@.saved(*regs),
            final(self)@.temp_roots == old(self)@.temp_roots,
            final(self)@.heap.layout() == old(self)@.heap.layout(),
    {
        reveal(VmView::saved);
        let p = self.active_process;
        self.set_field(p, PROCESS_FRAME_OFFSET as u64, Value::tagged(regs.frame as i64));
        self.set_field(p, PROCESS_PC as u64, Value::tagged(regs.pc as i64));
    }

    /// Look everything up again after a possible collection.
    pub fn refresh_regs(&self, regs: &mut Regs)
        requires
            self.wf(),
            old(regs).ok(),
        ensures
            *final(regs) == self@.refreshed(*old(regs)),
            final(regs).ok(),
            final(regs).frame == old(regs).frame,
            final(regs).pc == old(regs).pc,
    {
        reveal(VmView::refreshed);
        reveal(VmView::reloaded);
        if regs.epoch != self.gc_epoch {
            regs.stack = self.field(self.active_process, PROCESS_STACK as u64);
            self.reload_code(regs);
            regs.epoch = self.gc_epoch;
        }
    }

    /// The value of a frame slot; slot 0 is the receiver.
    pub fn get(&self, regs: &Regs, k: u64) -> (v: Value)
        requires
            self.wf(),
            regs.ok(),
            k <= 0xffff_ffff,
        ensures
            v == self@.get(*regs, k as int),
    {
        self.field(regs.stack, bslot(regs, k))
    }

    /// Set a frame slot, without the write barrier.
    pub fn put(&mut self, regs: &Regs, k: u64, v: Value)
        requires
            old(self).wf(),
            regs.ok(),
            k <= 0xffff_ffff,
        ensures
            final(self).wf(),
            final(self)@ == old(self)@.put(*regs, k as int, v),
            final(self)@.temp_roots == old(self)@.temp_roots,
            final(self)@.heap.layout() == old(self)@.heap.layout(),
    {
        self.set_field(regs.stack, bslot(regs, k), v);
    }
}

// ---------------------------------------------------------------------------
// Outcomes
// ---------------------------------------------------------------------------
/// What a step of the interpreter leaves behind: the planned machine, or the
/// planned fault.
pub open spec fn ran(r: Result<(), VmError>, after: Machine, planned: Result<Machine, Fault>) -> bool {
    match planned {
        Ok(m) => r is Ok && after == m,
        Err(f) => r is Err && r->Err_0.tells(f, after.vm),
    }
}

/// As [`ran`], for a step that answers something.
pub open spec fn gave<T>(
    r: Result<T, VmError>,
    after: Machine,
    planned: Result<(Machine, T), Fault>,
) -> bool {
    match planned {
        Ok((m, t)) => r is Ok && r->Ok_0 == t && after == m,
        Err(f) => r is Err && r->Err_0.tells(f, after.vm),
    }
}

impl Machine {
    pub open spec fn saved(self) -> Machine {
        Machine { vm: self.vm.saved(self.regs), ..self }
    }

    /// The machine after a scavenge, the registers saved before and looked
    /// up again after.
    #[verifier::opaque]
    pub open spec fn scavenged(self) -> Result<Machine, Fault> {
        match self.vm.saved(self.regs).scavenged() {
            Err(f) => Err(f),
            Ok(vm) => Ok(Machine { vm, regs: vm.refreshed(self.regs) }),
        }
    }

    /// As [`Machine::scavenged`], with a compaction of old space.
    #[verifier::opaque]
    pub open spec fn compacted(self) -> Result<Machine, Fault> {
        match self.vm.saved(self.regs).compacted() {
            Err(f) => Err(f),
            Ok(vm) => Ok(Machine { vm, regs: vm.refreshed(self.regs) }),
        }
    }

    /// Allocate, collecting when there is no room.
    #[verifier::opaque]
    pub open spec fn allocated(self, class: u32, format: u64, n: int) -> Result<
        (Machine, Value),
        Fault,
    > {
        let nil = self.vm.nil();
        match self.vm.heap.attempt(class, format, n, nil) {
            Some((h, v)) => Ok((Machine { vm: self.vm.on_heap(h), ..self }, v)),
            None => match self.scavenged() {
                Err(f) => Err(f),
                Ok(m1) => match m1.vm.heap.attempt(class, format, n, nil) {
                    Some((h, v)) => Ok((Machine { vm: m1.vm.on_heap(h), ..m1 }, v)),
                    None => match m1.compacted() {
                        Err(f) => Err(f),
                        Ok(m2) => match m2.vm.heap.attempt(class, format, n, nil) {
                            Some((h, v)) => Ok((Machine { vm: m2.vm.on_heap(h), ..m2 }, v)),
                            None => Err(Fault::OutOfMemory(m2.vm)),
                        },
                    },
                },
            },
        }
    }
}

impl Vm {
    pub(crate) fn scavenge_here(&mut self, regs: &mut Regs) -> (r: Result<(), VmError>)
        requires
            old(self).wf(),
            old(regs).ok(),
        ensures
            final(self).wf(),
            final(regs).ok(),
            ran(
                r,
                at(final(self)@, *final(regs)),
                at(old(self)@, *old(regs)).scavenged(),
            ),
            r is Ok ==> final(self)@.temp_roots.len() == old(self)@.temp_roots.len(),
            final(self)@.temp_roots.len() >= old(self)@.temp_roots.len(),
            final(regs).frame == old(regs).frame,
            final(regs).pc == old(regs).pc,
    {
        reveal(Machine::scavenged);
        self.save_regs(regs);
        self.collect_young()?;
        self.refresh_regs(regs);
        Ok(())
    }

    pub(crate) fn compact_here(&mut self, regs: &mut Regs) -> (r: Result<(), VmError>)
        requires
            old(self).wf(),
            old(regs).ok(),
        ensures
            final(self).wf(),
            final(regs).ok(),
            ran(
                r,
                at(final(self)@, *final(regs)),
                at(old(self)@, *old(regs)).compacted(),
            ),
            r is Ok ==> final(self)@.temp_roots.len() == old(self)@.temp_roots.len(),
            final(self)@.temp_roots.len() >= old(self)@.temp_roots.len(),
            final(regs).frame == old(regs).frame,
            final(regs).pc == old(regs).pc,
    {
        reveal(Machine::compacted);
        self.save_regs(regs);
        self.collect_old()?;
        self.refresh_regs(regs);
        Ok(())
    }

    /// Allocate, collecting when there is no room.
    #[verifier::spinoff_prover]
    #[verifier::rlimit(100)]
    pub fn alloc_gc(&mut self, regs: &mut Regs, class: u32, format: u64, n: usize) -> (r: Result<
        Value,
        VmError,
    >)
        requires
            old(self).wf(),
            old(regs).ok(),
            class <= MAX_CLASS_INDEX,
        ensures
            final(self).wf(),
            final(regs).ok(),
            gave(
                r,
                at(final(self)@, *final(regs)),
                at(old(self)@, *old(regs)).allocated(class, format, n as int),
            ),
            r is Ok ==> final(self)@.temp_roots.len() == old(self)@.temp_roots.len(),
            final(self)@.temp_roots.len() >= old(self)@.temp_roots.len(),
            r matches Ok(v) ==> final(self)@.heap.whole(v.addr()) && (format != FMT_FIXED && format
                != FMT_PTRS ==> v.addr() + 8 + n <= final(self)@.heap.limit_of(v.addr())),
    {
        reveal(Machine::allocated);
        let nil = self.nil();
        if let Some(v) = self.heap.attempt(class, format, n, nil) {
            return Ok(v);
        }
        self.scavenge_here(regs)?;
        if let Some(v) = self.heap.attempt(class, format, n, nil) {
            return Ok(v);
        }
        self.compact_here(regs)?;
        match self.heap.attempt(class, format, n, nil) {
            Some(v) => Ok(v),
            None => Err(VmError::OutOfMemory),
        }
    }
}

} // verus!
