//! Frames on a process's stack: growth, push, return, unwinding through
//! ensure blocks, and the context switch.

use crate::counters::CountersView;
use crate::machine::{offset_from, Machine, Regs};
use crate::value::Value;
use crate::vm::{fatal, Fault, Vm, VmError, VmView};
use crate::treaty::{
    CLASS_BLOCKCLOSURE, CLASS_STACK, CLOSURE_COMPILED_BLOCK, ENSURE_SLOT_BLOCK,
    ENSURE_SLOT_PENDING_SERIAL, ENSURE_SLOT_PENDING_TARGET, ENSURE_SLOT_PENDING_VALUE,
    FLAG_BLOCKCTX, FLAG_ENSURE, FLAG_HANDLER, FLAG_UNWINDCONT, FMT_PTRS, FRAME_CALLER,
    FRAME_FLAGS, FRAME_METHOD, FRAME_RECEIVER, FRAME_RETINFO, METHOD_HEADER, MH_FLAGS_SHIFT,
    MH_FLAG_IS_ENSURE, MH_FLAG_IS_HANDLER, OP_PRIM, PROCESS_SERIAL_COUNTER, PROCESS_STACK,
    RETINFO_PC_SHIFT, SCHEDULER_ACTIVE_PROCESS, SERIAL_SHIFT, SPECIAL_PROCESSOR,
};
use vstd::prelude::*;

verus! {

impl VmView {
    /// Slots `i..n` of one object copied to another.
    pub open spec fn copied(self, from: Value, to: Value, i: int, n: int) -> VmView
        decreases n - i,
    {
        if i >= n {
            self
        } else {
            self.with_field(to, i, self.field(from, i)).copied(from, to, i + 1, n)
        }
    }

    /// Slots `i..n` of an object set to nil.
    pub open spec fn nilled(self, o: Value, i: int, n: int) -> VmView
        decreases n - i,
    {
        if i >= n {
            self
        } else {
            self.with_field(o, i, self.nil()).nilled(o, i + 1, n)
        }
    }
}

/// A size doubled until it suffices.
pub open spec fn doubled(n: int, needed: int) -> int
    decreases
            (if n < needed {
                needed - n
            } else {
                0
            }),
{
    if n <= 0 || n >= needed {
        n
    } else {
        doubled(2 * n, needed)
    }
}

pub(crate) proof fn lemma_doubled(n: int, needed: int)
    requires
        0 < n,
    ensures
        doubled(n, needed) >= n,
        doubled(n, needed) >= needed,
    decreases
            (if n < needed {
                needed - n
            } else {
                0
            }),
{
    if n < needed {
        lemma_doubled(2 * n, needed);
    }
}

/// The serial number after a serial number; they wrap below two to the
/// thirtieth.
pub open spec fn next_serial(cur: u32) -> u32 {
    if cur >= 1073741823 {
        1
    } else {
        (cur + 1) as u32
    }
}

/// A frame's flag bits: the given ones and those the method header asks for.
pub open spec fn frame_bits(header: i64, extra: u64) -> u64 {
    let m = (header >> 33u32) as u64;
    let a = if m & MH_FLAG_IS_HANDLER != 0 {
        extra | FLAG_HANDLER
    } else {
        extra
    };
    if m & MH_FLAG_IS_ENSURE != 0 {
        a | FLAG_ENSURE
    } else {
        a
    }
}

/// The fields of a return-info integer stay in their ranges.
pub proof fn lemma_retinfo(ri: i64)
    ensures
        0 <= ri & 0xff <= 255,
        ri <= crate::value::SMALLINT_MAX ==> ri >> 8u32 <= crate::value::SMALLINT_MAX,
        crate::value::SMALLINT_MIN <= ri >> 32u32 <= crate::value::SMALLINT_MAX,
{
    assert(0 <= ri & 0xff <= 255 && (ri <= 4611686018427387903i64 ==> ri >> 8u32
        <= 4611686018427387903i64) && -4611686018427387904i64 <= ri >> 32u32
        <= 4611686018427387903i64) by (bit_vector);
}

/// Popping makes the caller's frame the current one.
pub proof fn lemma_popped_frame(m: Machine, caller: u64)
    ensures
        m.popped(caller).regs.frame == caller,
{
    reveal(Machine::popped);
    reveal(VmView::reloaded);
}

/// An unwind is taken up again in a lower frame.
pub proof fn lemma_resumed_frame(m: Machine)
    ensures
        m.unwind_resumed() matches Ok((m1, t, x)) ==> m1.regs.frame < m.regs.frame,
{
    reveal(Machine::unwind_resumed);
    let e = crate::machine::offset_of(
        m.vm.int_field(m.regs.stack, m.regs.frame + FRAME_CALLER),
    );
    lemma_popped_frame(m, e);
}

impl Machine {
    pub open spec fn on(self, vm: VmView) -> Machine {
        Machine { vm, ..self }
    }

    pub open spec fn get(self, k: int) -> Value {
        self.vm.get(self.regs, k)
    }

    pub open spec fn put(self, k: int, v: Value) -> Machine {
        self.on(self.vm.put(self.regs, k, v))
    }

    /// The flags integer of the frame at an offset of the running stack.
    pub open spec fn flags_at(self, off: int) -> Value {
        self.vm.field(self.regs.stack, off + FRAME_FLAGS)
    }

    /// The frame at an offset of the running stack carries a serial number.
    pub open spec fn has_serial(self, off: u64, serial: i64) -> bool {
        let f = self.flags_at(off as int);
        f.tagged_int() && f.int_value() >> 32u32 == serial
    }

    /// The running process moved to a stack object of its own stack's
    /// contents.
    pub open spec fn restacked(self, cur: int, new: Value) -> Machine {
        let vm = self.vm.copied(self.regs.stack, new, 0, cur).with_stored(
            self.vm.active,
            PROCESS_STACK as int,
            new,
        );
        Machine {
            vm: VmView { stack_grows: vm.stack_grows.wrapping_add(1), ..vm },
            regs: Regs { stack: new, ..self.regs },
        }
    }

    /// A new stack object: in young space, else in old space, compacted once
    /// when that is full.
    #[verifier::opaque]
    pub open spec fn stack_made(self, new: int) -> Result<(Machine, Value), Fault> {
        let nil = self.vm.nil();
        match self.vm.heap.attempt(CLASS_STACK, FMT_PTRS, new, nil) {
            Some((h, v)) => Ok((self.on(self.vm.on_heap(h)), v)),
            None => match self.vm.heap.alloc_old(CLASS_STACK, FMT_PTRS, new, Some(nil.0), false) {
                Some((h, a)) => Ok((self.on(self.vm.on_heap(h)), Value(a as u64))),
                None => match self.compacted() {
                    Err(f) => Err(f),
                    Ok(m) => match m.vm.heap.alloc_old(
                        CLASS_STACK,
                        FMT_PTRS,
                        new,
                        Some(nil.0),
                        false,
                    ) {
                        Some((h, a)) => Ok((m.on(m.vm.on_heap(h)), Value(a as u64))),
                        None => Err(Fault::OutOfMemory(m.vm)),
                    },
                },
            },
        }
    }

    /// The stack doubled until it has the slots that are needed.
    #[verifier::opaque]
    pub open spec fn grown(self, needed: int) -> Result<Machine, Fault> {
        let cur = self.vm.slots(self.regs.stack);
        let new = doubled(2 * cur, needed);
        if cur <= 0 {
            Err(Fault::Fatal("malformed stack"@, self.vm))
        } else if 8 * new > self.vm.max_stack_bytes {
            Err(Fault::StackOverflow(self.vm))
        } else {
            match self.stack_made(new) {
                Err(f) => Err(f),
                Ok((m, v)) => Ok(m.restacked(cur, v)),
            }
        }
    }

    /// The stack made to have the slots that are needed.
    pub open spec fn roomy(self, needed: int) -> Result<Machine, Fault> {
        if needed > self.vm.slots(self.regs.stack) {
            self.grown(needed)
        } else {
            Ok(self)
        }
    }

    /// The words of a new frame written above the current frame, and the
    /// machine poised at its first instruction.
    #[verifier::opaque]
    pub open spec fn framed(
        self,
        method: Value,
        r: u8,
        dest: u8,
        argc: int,
        fail: Option<i64>,
        extra: u64,
    ) -> Machine {
        let st = self.regs.stack;
        let off = self.regs.frame + r;
        let p = self.vm.active;
        let bits = self.vm.method_bits(method);
        let fs = crate::vm::mh_frame_slots(bits);
        let serial = next_serial(
            self.vm.int_field(p, PROCESS_SERIAL_COUNTER as int) as u32,
        );
        let v1 = self.vm.with_field(
            p,
            PROCESS_SERIAL_COUNTER as int,
            crate::value::tag(serial as i64),
        ).with_field(
            st,
            off + FRAME_CALLER,
            crate::value::tag(self.regs.frame as i64),
        ).with_field(
            st,
            off + FRAME_RETINFO,
            crate::value::tag((dest as i64) | ((self.regs.pc as i64) << 8u32)),
        ).with_field(st, off + FRAME_METHOD, method).with_field(
            st,
            off + FRAME_FLAGS,
            crate::value::tag((frame_bits(bits, extra) as i64) | ((serial as i64) << 32u32)),
        ).nilled(st, off + FRAME_RECEIVER + 1 + argc, off + FRAME_RECEIVER + fs);
        let regs = v1.reloaded(Regs { frame: off as u64, ..self.regs });
        match fail {
            None => Machine { vm: v1, regs: Regs { pc: 0, ..regs } },
            Some(code) => {
                let v2 = v1.put(regs, 1 + argc, crate::value::tag(code));
                let prim_first = v2.insn(regs.code, 0) matches Some(w) && w & 0xff == OP_PRIM;
                Machine {
                    vm: v2,
                    regs: Regs {
                        pc: if prim_first {
                            1
                        } else {
                            0
                        },
                        ..regs
                    },
                }
            },
        }
    }

    /// A frame pushed for a method whose receiver sits at slot `r` of the
    /// current frame: caller and callee overlap.
    pub open spec fn pushed(
        self,
        method: Value,
        r: u8,
        dest: u8,
        argc: int,
        fail: Option<i64>,
        extra: u64,
    ) -> Result<Machine, Fault> {
        let fs = crate::vm::mh_frame_slots(self.vm.method_bits(method));
        if r < FRAME_RECEIVER {
            Err(Fault::Fatal("send staged below slot 4"@, self.vm))
        } else {
            match self.roomy(self.regs.frame + r + FRAME_RECEIVER + fs) {
                Err(f) => Err(f),
                Ok(m) => Ok(m.framed(method, r, dest, argc, fail, extra)),
            }
        }
    }

    /// The current frame's words set to nil, so that it pins no garbage.
    pub open spec fn frame_nilled(self) -> VmView {
        let fs = crate::vm::mh_frame_slots(self.vm.method_bits(self.regs.method));
        self.vm.nilled(
            self.regs.stack,
            self.regs.frame as int,
            self.regs.frame + FRAME_RECEIVER + fs,
        )
    }

    /// The current frame popped, and its caller's code at hand.
    #[verifier::opaque]
    pub open spec fn popped(self, caller: u64) -> Machine {
        let vm = self.frame_nilled();
        Machine { vm, regs: vm.reloaded(Regs { frame: caller, ..self.regs }) }
    }

    /// A return from the current frame: the value goes to the caller's
    /// destination slot, or ends the process at the base frame.
    #[verifier::opaque]
    pub open spec fn returned_plain(self, v: Value) -> Machine {
        let caller = self.vm.int_field(self.regs.stack, self.regs.frame + FRAME_CALLER);
        if caller == 0 {
            Machine { regs: Regs { halted: Some(v), ..self.regs }, ..self }
        } else {
            let ri = self.vm.int_field(self.regs.stack, self.regs.frame + FRAME_RETINFO);
            let m = self.popped(crate::machine::offset_of(caller));
            let regs = Regs { pc: crate::machine::offset_of((ri >> 8u32) as i64), ..m.regs };
            Machine { regs, ..m }.put((ri & 0xff) as int, v)
        }
    }

    /// After an ensure block: the frame that holds the pending unwind, its
    /// target and value.
    #[verifier::opaque]
    pub open spec fn unwind_resumed(self) -> Result<(Machine, u64, Value), Fault> {
        let e = crate::machine::offset_of(
            self.vm.int_field(self.regs.stack, self.regs.frame + FRAME_CALLER),
        );
        if e >= self.regs.frame {
            Err(Fault::Fatal("corrupt frame chain"@, self.vm))
        } else {
            let m = self.popped(e);
            let hsb = crate::vm::mh_handler_base(m.vm.method_bits(m.regs.method));
            let target = m.get(hsb + ENSURE_SLOT_PENDING_TARGET);
            let serial = m.get(hsb + ENSURE_SLOT_PENDING_SERIAL);
            let t = crate::machine::offset_of(target.int_value());
            if !target.tagged_int() {
                Err(Fault::Fatal("corrupt pending unwind in ensure frame"@, m.vm))
            } else if !(t <= m.regs.frame && m.has_serial(t, serial.int_value())) {
                Err(Fault::Fatal("unwind target died while ensure block ran"@, m.vm))
            } else {
                Ok((m, t, m.get(hsb + ENSURE_SLOT_PENDING_VALUE)))
            }
        }
    }

    /// An ensure block run before its frame is popped: the pending unwind is
    /// stashed in the frame, the block is marked as consumed, and it runs on
    /// top with the continuation flag.
    #[verifier::opaque]
    pub open spec fn ensure_run(self, target: u64, v: Value, hsb: int, block: Value) -> Result<
        Machine,
        Fault,
    > {
        let serial = (self.flags_at(target as int).int_value() >> 32u32) as i64;
        let m0 = self.on(
            VmView {
                ctr: CountersView {
                    ensure_interceptions: self.vm.ctr.ensure_interceptions.wrapping_add(1),
                    ..self.vm.ctr
                },
                ..self.vm
            },
        );
        let m = m0.put(hsb + ENSURE_SLOT_BLOCK, self.vm.nil()).put(
            hsb + ENSURE_SLOT_PENDING_TARGET,
            crate::value::tag(target as i64),
        ).put(hsb + ENSURE_SLOT_PENDING_SERIAL, crate::value::tag(serial)).put(
            hsb + ENSURE_SLOT_PENDING_VALUE,
            v,
        );
        let code = m.vm.field(block, CLOSURE_COMPILED_BLOCK as int);
        let r = crate::vm::mh_frame_slots(m.vm.method_bits(m.regs.method)) + FRAME_RECEIVER;
        if crate::vm::mh_argc(m.vm.method_bits(code)) != 0 {
            Err(Fault::Fatal("ensure block must take no arguments"@, m.vm))
        } else if r > 255 {
            Err(Fault::Fatal("staging area exceeds frame-slot limit"@, m.vm))
        } else {
            match m.roomy(m.regs.frame + FRAME_RECEIVER + r + 1) {
                Err(f) => Err(f),
                Ok(m1) => m1.put(r, block).pushed(
                    code,
                    r as u8,
                    0,
                    0,
                    None,
                    FLAG_BLOCKCTX | FLAG_UNWINDCONT,
                ),
            }
        }
    }

    /// The ensure block that stops the current frame from being popped, and
    /// the slot it is in.
    pub open spec fn ensure_block(self) -> Option<(int, Value)> {
        let hsb = crate::vm::mh_handler_base(self.vm.method_bits(self.regs.method));
        let block = self.get(hsb + ENSURE_SLOT_BLOCK);
        if self.flags_at(self.regs.frame as int).int_value() & 2 != 0 && self.vm.is_a(
            block,
            CLASS_BLOCKCLOSURE,
        ) {
            Some((hsb, block))
        } else {
            None
        }
    }

    pub open spec fn unwind_counted(self) -> Machine {
        self.on(
            VmView {
                ctr: CountersView {
                    unwind_runs: self.vm.ctr.unwind_runs.wrapping_add(1),
                    ..self.vm.ctr
                },
                ..self.vm
            },
        )
    }

    /// Pop frames down to `target`, then return `v` from it. A frame with a
    /// pending ensure block runs it first; the return from such a block
    /// takes the pending unwind up again.
    pub open spec fn unwinding(self, target: u64, v: Value) -> Result<Machine, Fault>
        decreases self.regs.frame,
    {
        if self.regs.frame == target {
            if self.flags_at(target as int).int_value() & 8 != 0 {
                match self.unwind_resumed() {
                    Err(f) => Err(f),
                    Ok((m, t, x)) => {
                        proof {
                            lemma_resumed_frame(self);
                        }
                        m.unwind_counted().unwinding(t, x)
                    },
                }
            } else {
                Ok(self.returned_plain(v))
            }
        } else if self.regs.frame < target {
            Err(Fault::Fatal("unwind target not on the frame chain"@, self.vm))
        } else {
            match self.ensure_block() {
                Some((hsb, block)) => self.ensure_run(target, v, hsb, block),
                None => {
                    let caller = self.vm.int_field(
                        self.regs.stack,
                        self.regs.frame + FRAME_CALLER,
                    );
                    let c = crate::machine::offset_of(caller);
                    if caller == 0 {
                        Err(Fault::Fatal("unwind past base frame"@, self.vm))
                    } else if c >= self.regs.frame {
                        Err(Fault::Fatal("corrupt frame chain"@, self.vm))
                    } else {
                        proof {
                            lemma_popped_frame(self, c);
                        }
                        self.popped(c).unwinding(target, v)
                    }
                },
            }
        }
    }

    /// A return of a value from the current frame.
    pub open spec fn returned(self, v: Value) -> Result<Machine, Fault> {
        self.unwinding(self.regs.frame, v)
    }

    /// Unwind to a frame and return a value from it.
    pub open spec fn unwound(self, target: u64, v: Value) -> Result<Machine, Fault> {
        self.unwind_counted().unwinding(target, v)
    }

    /// The context switch: the outgoing process's state saved and its stack
    /// remembered when it is old, the target's state loaded.
    #[verifier::opaque]
    pub open spec fn switched(self, target: Value) -> Machine {
        let cur = self.vm.active;
        let nil = self.vm.nil();
        let v0 = VmView {
            ctr: CountersView {
                process_switches: self.vm.ctr.process_switches.wrapping_add(1),
                ..self.vm.ctr
            },
            ..self.vm
        };
        let stack = v0.field(cur, PROCESS_STACK as int);
        let v1 = if cur.tagged_ptr() && cur != nil && stack != nil {
            v0.saved(self.regs).stack_remembered(stack)
        } else {
            v0
        };
        let v2 = v1.with_stored(
            v1.specials[SPECIAL_PROCESSOR as int],
            SCHEDULER_ACTIVE_PROCESS as int,
            target,
        );
        let v3 = VmView { active: target, ..v2 };
        Machine { vm: v3, regs: v3.loaded() }
    }
}

impl VmView {
    /// A stack that stops running put in the remembered set when it lies in
    /// old space: stores into it were exempt from the write barrier.
    pub open spec fn stack_remembered(self, stack: Value) -> VmView {
        if self.heap.tenured(stack.addr()) && self.heap.plausible(stack.addr()) {
            self.on_heap(self.heap.remembered(stack.addr()))
        } else {
            self
        }
    }
}

impl Vm {
    pub(crate) fn copy_slots(&mut self, from: Value, to: Value, n: u64)
        requires
            old(self).wf(),
        ensures
            final(self).wf(),
            final(self)@ == old(self)@.copied(from, to, 0, n as int),
            final(self)@.temp_roots == old(self)@.temp_roots,
    {
        let mut i: u64 = 0;
        while i < n
            invariant
                i <= n,
                self.wf(),
                self@.temp_roots == old(self)@.temp_roots,
                old(self)@.copied(from, to, 0, n as int) == self@.copied(
                    from,
                    to,
                    i as int,
                    n as int,
                ),
            decreases n - i,
        {
            let v = self.field(from, i);
            self.set_field(to, i, v);
            i = i + 1;
        }
    }

    pub(crate) fn nil_slots(&mut self, o: Value, from: u64, to: u64)
        requires
            old(self).wf(),
        ensures
            final(self).wf(),
            final(self)@ == old(self)@.nilled(o, from as int, to as int),
            final(self)@.temp_roots == old(self)@.temp_roots,
    {
        let mut i: u64 = from;
        while i < to
            invariant
                from <= i,
                self.wf(),
                self@.temp_roots == old(self)@.temp_roots,
                old(self)@.nilled(o, from as int, to as int) == self@.nilled(
                    o,
                    i as int,
                    to as int,
                ),
            decreases to - i,
        {
            let nil = self.nil();
            self.set_field(o, i, nil);
            i = i + 1;
        }
    }

    fn restack(&mut self, regs: &mut Regs, cur: u64, new: Value)
        requires
            old(self).wf(),
            old(regs).ok(),
        ensures
            final(self).wf(),
            *final(regs) == (Regs { stack: new, ..*old(regs) }),
            crate::machine::at(final(self)@, *final(regs)) == crate::machine::at(
                old(self)@,
                *old(regs),
            ).restacked(cur as int, new),
            final(self)@.temp_roots == old(self)@.temp_roots,
    {
        self.copy_slots(regs.stack, new, cur);
        let process = self.active_process;
        proof {
            lemma_copied_frame(old(self)@, regs.stack, new, 0, cur as int);
        }
        self.store_field(process, PROCESS_STACK as u64, new);
        regs.stack = new;
        self.stack_grow_count = self.stack_grow_count.wrapping_add(1);
    }

    fn alloc_stack(&mut self, regs: &mut Regs, n: usize) -> (r: Result<Value, VmError>)
        requires
            old(self).wf(),
            old(regs).ok(),
        ensures
            final(self).wf(),
            final(regs).ok(),
            crate::machine::gave(
                r,
                crate::machine::at(final(self)@, *final(regs)),
                crate::machine::at(old(self)@, *old(regs)).stack_made(n as int),
            ),
            r is Ok ==> final(self)@.temp_roots.len() == old(self)@.temp_roots.len(),
            final(self)@.temp_roots.len() >= old(self)@.temp_roots.len(),
            r is Ok ==> final(regs).frame == old(regs).frame,
    {
        reveal(Machine::stack_made);
        let nil = self.nil();
        if let Some(v) = self.heap.attempt(CLASS_STACK, FMT_PTRS, n, nil) {
            return Ok(v);
        }
        if let Some(v) = self.heap.make_old(CLASS_STACK, FMT_PTRS, n, nil) {
            return Ok(v);
        }
        self.compact_here(regs)?;
        match self.heap.make_old(CLASS_STACK, FMT_PTRS, n, nil) {
            Some(v) => Ok(v),
            None => Err(VmError::OutOfMemory),
        }
    }

    /// Double the stack until it has the slots that are needed.
    pub fn grow_stack(&mut self, regs: &mut Regs, needed: u64) -> (r: Result<(), VmError>)
        requires
            old(self).wf(),
            old(regs).ok(),
        ensures
            final(self).wf(),
            final(regs).ok(),
            crate::machine::ran(
                r,
                crate::machine::at(final(self)@, *final(regs)),
                crate::machine::at(old(self)@, *old(regs)).grown(needed as int),
            ),
            r is Ok ==> final(self)@.temp_roots.len() == old(self)@.temp_roots.len(),
            final(self)@.temp_roots.len() >= old(self)@.temp_roots.len(),
            r is Ok ==> needed <= 0x2000_0000_0000_0000 && final(regs).frame == old(regs).frame,
    {
        reveal(Machine::grown);
        let cur: u64 = self.slots(regs.stack);
        if cur == 0 {
            return fatal("malformed stack");
        }
        let new: usize = match grown_size(cur, needed, self.max_stack_bytes) {
            Some(n) => n,
            None => {
                return Err(VmError::StackOverflow);
            },
        };
        let v = self.alloc_stack(regs, new)?;
        self.restack(regs, cur, v);
        Ok(())
    }
}

/// The size of a stack of `cur` slots doubled until it suffices; `None` where
/// that is more than the limit.
pub(crate) fn grown_size(cur: u64, needed: u64, limit: usize) -> (r: Option<usize>)
    requires
        0 < cur <= 0x0800_0000_0000_0000,
    ensures
        r == (if 8 * doubled(2 * cur, needed as int) > limit {
            None
        } else {
            Some(doubled(2 * cur, needed as int) as usize)
        }),
        r is Some ==> r->0 == doubled(2 * cur, needed as int) && needed <= 0x2000_0000_0000_0000,
{
    let mut new: u64 = 2 * cur;
    while new < needed && new <= 0x2000_0000_0000_0000
        invariant
            0 < new <= 0x4000_0000_0000_0000,
            doubled(2 * cur, needed as int) == doubled(new as int, needed as int),
        decreases 0x4000_0000_0000_0000 - new,
    {
        new = 2 * new;
    }
    proof {
        lemma_doubled(new as int, needed as int);
    }
    if new > 0x1fff_ffff_ffff_ffff || 8 * new > limit as u64 {
        return None;
    }
    Some(new as usize)
}

/// Copying slots changes the heap alone.
pub(crate) proof fn lemma_copied_frame(v: VmView, from: Value, to: Value, i: int, n: int)
    ensures
        v.copied(from, to, i, n) == v.on_heap(v.copied(from, to, i, n).heap),
    decreases n - i,
{
    reveal(VmView::with_field);
    if i < n {
        lemma_copied_frame(v.with_field(to, i, v.field(from, i)), from, to, i + 1, n);
    }
}

impl Vm {
    /// Make the stack have the slots that are needed.
    pub(crate) fn make_room(&mut self, regs: &mut Regs, needed: u64) -> (r: Result<(), VmError>)
        requires
            old(self).wf(),
            old(regs).ok(),
        ensures
            final(self).wf(),
            final(regs).ok(),
            crate::machine::ran(
                r,
                crate::machine::at(final(self)@, *final(regs)),
                crate::machine::at(old(self)@, *old(regs)).roomy(needed as int),
            ),
            r is Ok ==> final(self)@.temp_roots.len() == old(self)@.temp_roots.len(),
            final(self)@.temp_roots.len() >= old(self)@.temp_roots.len(),
            r is Ok ==> needed <= 0x2000_0000_0000_0000 && final(regs).frame == old(regs).frame,
    {
        if needed > self.slots(regs.stack) {
            self.grow_stack(regs, needed)
        } else {
            Ok(())
        }
    }

    fn bump_serial(&mut self) -> (n: u32)
        requires
            old(self).wf(),
        ensures
            final(self).wf(),
            n == next_serial(
                old(self)@.int_field(old(self)@.active, PROCESS_SERIAL_COUNTER as int) as u32,
            ),
            final(self)@ == old(self)@.with_field(
                old(self)@.active,
                PROCESS_SERIAL_COUNTER as int,
                crate::value::tag(n as i64),
            ),
            final(self)@.temp_roots == old(self)@.temp_roots,
    {
        let p = self.active_process;
        let cur: u32 = self.int_field(p, PROCESS_SERIAL_COUNTER as u64) as u32;
        let next: u32 = if cur >= 1073741823 {
            1
        } else {
            cur + 1
        };
        self.set_field(p, PROCESS_SERIAL_COUNTER as u64, Value::tagged(next as i64));
        next
    }

    /// Write the words of a new frame above the current one.
    #[verifier::rlimit(60)]
    fn write_frame(
        &mut self,
        regs: &mut Regs,
        method: Value,
        r: u8,
        dest: u8,
        argc: u64,
        prim_fail: Option<i64>,
        extra_flags: u64,
    )
        requires
            old(self).wf(),
            old(regs).ok(),
            old(regs).frame + r <= crate::machine::OFFSET_LIMIT,
            argc <= 0xffff,
        ensures
            final(self).wf(),
            final(regs).ok(),
            crate::machine::at(final(self)@, *final(regs)) == crate::machine::at(
                old(self)@,
                *old(regs),
            ).framed(method, r, dest, argc as int, prim_fail, extra_flags),
            final(self)@.temp_roots == old(self)@.temp_roots,
    {
        reveal(Machine::framed);
        reveal(VmView::reloaded);
        let st = regs.stack;
        let off: u64 = regs.frame + r as u64;
        let bits: i64 = self.int_field(method, METHOD_HEADER as u64);
        let fs: u64 = self.frame_slots_of(method);
        let m: u64 = (bits >> MH_FLAGS_SHIFT) as u64;
        let mut fflags: u64 = extra_flags;
        if m & MH_FLAG_IS_HANDLER != 0 {
            fflags = fflags | FLAG_HANDLER;
        }
        if m & MH_FLAG_IS_ENSURE != 0 {
            fflags = fflags | FLAG_ENSURE;
        }
        let serial: u32 = self.bump_serial();
        self.set_field(st, off + FRAME_CALLER as u64, Value::tagged(regs.frame as i64));
        self.set_field(
            st,
            off + FRAME_RETINFO as u64,
            Value::tagged((dest as i64) | ((regs.pc as i64) << RETINFO_PC_SHIFT)),
        );
        self.set_field(st, off + FRAME_METHOD as u64, method);
        self.set_field(
            st,
            off + FRAME_FLAGS as u64,
            Value::tagged((fflags as i64) | ((serial as i64) << SERIAL_SHIFT)),
        );
        self.nil_slots(
            st,
            off + FRAME_RECEIVER as u64 + 1 + argc,
            off + FRAME_RECEIVER as u64 + fs,
        );
        regs.frame = off;
        self.reload_code(regs);
        match prim_fail {
            Some(code) => {
                self.put(regs, 1 + argc, Value::tagged(code));
                regs.pc = match self.insn(regs.code, 0) {
                    Some(w) => if w & 0xFF == OP_PRIM as u32 {
                        1
                    } else {
                        0
                    },
                    None => 0,
                };
            },
            None => {
                regs.pc = 0;
            },
        }
    }

    /// Push a frame for a method whose receiver sits at slot `r` of the
    /// current frame.
    pub fn push_frame(
        &mut self,
        regs: &mut Regs,
        method: Value,
        r: u8,
        dest: u8,
        argc: u64,
        prim_fail: Option<i64>,
        extra_flags: u64,
    ) -> (res: Result<(), VmError>)
        requires
            old(self).wf(),
            old(regs).ok(),
            argc <= 0xffff,
        ensures
            final(self).wf(),
            final(regs).ok(),
            crate::machine::ran(
                res,
                crate::machine::at(final(self)@, *final(regs)),
                crate::machine::at(old(self)@, *old(regs)).pushed(
                    method,
                    r,
                    dest,
                    argc as int,
                    prim_fail,
                    extra_flags,
                ),
            ),
            res is Ok ==> final(self)@.temp_roots.len() == old(self)@.temp_roots.len(),
            final(self)@.temp_roots.len() >= old(self)@.temp_roots.len(),
    {
        if (r as usize) < FRAME_RECEIVER {
            return fatal("send staged below slot 4");
        }
        let fs: u64 = self.frame_slots_of(method);
        let needed: u64 = regs.frame + r as u64 + FRAME_RECEIVER as u64 + fs;
        self.make_room(regs, needed)?;
        proof {
            reveal(VmView::slots);
        }
        self.write_frame(regs, method, r, dest, argc, prim_fail, extra_flags);
        Ok(())
    }

    /// Set the current frame's words to nil.
    pub fn nil_frame(&mut self, regs: &Regs)
        requires
            old(self).wf(),
            regs.ok(),
        ensures
            final(self).wf(),
            final(self)@ == crate::machine::at(old(self)@, *regs).frame_nilled(),
            final(self)@.temp_roots == old(self)@.temp_roots,
    {
        let fs: u64 = self.frame_slots_of(regs.method);
        self.nil_slots(regs.stack, regs.frame, regs.frame + FRAME_RECEIVER as u64 + fs);
    }

    pub(crate) fn pop_frame(&mut self, regs: &mut Regs, caller: u64)
        requires
            old(self).wf(),
            old(regs).ok(),
            caller <= crate::machine::OFFSET_LIMIT,
        ensures
            final(self).wf(),
            final(regs).ok(),
            final(regs).frame == caller,
            crate::machine::at(final(self)@, *final(regs)) == crate::machine::at(
                old(self)@,
                *old(regs),
            ).popped(caller),
            final(self)@.temp_roots == old(self)@.temp_roots,
    {
        reveal(Machine::popped);
        reveal(VmView::reloaded);
        self.nil_frame(regs);
        regs.frame = caller;
        self.reload_code(regs);
    }

    fn return_plain(&mut self, regs: &mut Regs, value: Value)
        requires
            old(self).wf(),
            old(regs).ok(),
        ensures
            final(self).wf(),
            final(regs).ok(),
            crate::machine::at(final(self)@, *final(regs)) == crate::machine::at(
                old(self)@,
                *old(regs),
            ).returned_plain(value),
            final(self)@.temp_roots == old(self)@.temp_roots,
    {
        reveal(Machine::returned_plain);
        let caller: i64 = self.int_field(regs.stack, regs.frame + FRAME_CALLER as u64);
        if caller == 0 {
            regs.halted = Some(value);
            return ;
        }
        let ri: i64 = self.int_field(regs.stack, regs.frame + FRAME_RETINFO as u64);
        proof {
            lemma_retinfo(ri);
        }
        self.pop_frame(regs, offset_from(caller));
        regs.pc = offset_from(ri >> RETINFO_PC_SHIFT);
        let dest: u64 = (ri & 0xff) as u64;
        self.put(regs, dest, value);
    }

    fn resume_unwind(&mut self, regs: &mut Regs) -> (r: Result<(u64, Value), VmError>)
        requires
            old(self).wf(),
            old(regs).ok(),
        ensures
            final(self).wf(),
            final(regs).ok(),
            match crate::machine::at(old(self)@, *old(regs)).unwind_resumed() {
                Err(f) => r is Err && r->Err_0.tells(f, final(self)@),
                Ok((m, t, v)) => r == Ok::<(u64, Value), VmError>((t, v)) && crate::machine::at(
                    final(self)@,
                    *final(regs),
                ) == m && t <= m.regs.frame && m.regs.frame < old(regs).frame,
            },
            r is Ok ==> final(self)@.temp_roots.len() == old(self)@.temp_roots.len(),
            final(self)@.temp_roots.len() >= old(self)@.temp_roots.len(),
    {
        reveal(Machine::unwind_resumed);
        let e: u64 = offset_from(self.int_field(regs.stack, regs.frame + FRAME_CALLER as u64));
        if e >= regs.frame {
            return fatal("corrupt frame chain");
        }
        self.pop_frame(regs, e);
        let hsb: u64 = self.handler_base_of(regs.method);
        let target = self.get(regs, hsb + ENSURE_SLOT_PENDING_TARGET as u64);
        let serial = self.get(regs, hsb + ENSURE_SLOT_PENDING_SERIAL as u64);
        let value = self.get(regs, hsb + ENSURE_SLOT_PENDING_VALUE as u64);
        if !target.is_int() {
            return fatal("corrupt pending unwind in ensure frame");
        }
        let t: u64 = offset_from(target.as_int());
        if t > regs.frame || !self.frame_has_serial(regs, t, serial.as_int()) {
            return fatal("unwind target died while ensure block ran");
        }
        Ok((t, value))
    }

    /// Whether the frame at an offset of the running stack carries a serial
    /// number.
    pub(crate) fn frame_has_serial(&self, regs: &Regs, off: u64, serial: i64) -> (b: bool)
        requires
            self.wf(),
            off <= crate::machine::OFFSET_LIMIT,
        ensures
            b == crate::machine::at(self@, *regs).has_serial(off, serial),
    {
        let f = self.field(regs.stack, off + FRAME_FLAGS as u64);
        f.is_int() && f.as_int() >> SERIAL_SHIFT == serial
    }

    #[verifier::rlimit(60)]
    fn run_ensure(&mut self, regs: &mut Regs, target: u64, value: Value, hsb: u64, block: Value) -> (r:
        Result<(), VmError>)
        requires
            old(self).wf(),
            old(regs).ok(),
            hsb <= 255,
            target <= crate::machine::OFFSET_LIMIT,
        ensures
            final(self).wf(),
            final(regs).ok(),
            crate::machine::ran(
                r,
                crate::machine::at(final(self)@, *final(regs)),
                crate::machine::at(old(self)@, *old(regs)).ensure_run(
                    target,
                    value,
                    hsb as int,
                    block,
                ),
            ),
            r is Ok ==> final(self)@.temp_roots.len() == old(self)@.temp_roots.len(),
            final(self)@.temp_roots.len() >= old(self)@.temp_roots.len(),
    {
        reveal(Machine::ensure_run);
        let nil = self.nil();
        let serial: i64 = self.int_field(regs.stack, target + FRAME_FLAGS as u64) >> SERIAL_SHIFT;
        self.counters.ensure_interceptions = self.counters.ensure_interceptions.wrapping_add(1);
        self.put(regs, hsb + ENSURE_SLOT_BLOCK as u64, nil);
        self.put(regs, hsb + ENSURE_SLOT_PENDING_TARGET as u64, Value::tagged(target as i64));
        self.put(regs, hsb + ENSURE_SLOT_PENDING_SERIAL as u64, Value::tagged(serial));
        self.put(regs, hsb + ENSURE_SLOT_PENDING_VALUE as u64, value);
        let code = self.field(block, CLOSURE_COMPILED_BLOCK as u64);
        if self.argc_of(code) != 0 {
            return fatal("ensure block must take no arguments");
        }
        let r: u64 = self.frame_slots_of(regs.method) + FRAME_RECEIVER as u64;
        if r > 255 {
            return fatal("staging area exceeds frame-slot limit");
        }
        self.make_room(regs, regs.frame + FRAME_RECEIVER as u64 + r + 1)?;
        self.put(regs, r, block);
        self.push_frame(regs, code, r as u8, 0, 0, None, FLAG_BLOCKCTX | FLAG_UNWINDCONT)
    }

    /// Pop frames down to `target`, then return `value` from it.
    fn unwind(&mut self, regs: &mut Regs, target: u64, value: Value) -> (r: Result<(), VmError>)
        requires
            old(self).wf(),
            old(regs).ok(),
            target <= crate::machine::OFFSET_LIMIT,
        ensures
            final(self).wf(),
            final(regs).ok(),
            crate::machine::ran(
                r,
                crate::machine::at(final(self)@, *final(regs)),
                crate::machine::at(old(self)@, *old(regs)).unwinding(target, value),
            ),
            r is Ok ==> final(self)@.temp_roots.len() == old(self)@.temp_roots.len(),
            final(self)@.temp_roots.len() >= old(self)@.temp_roots.len(),
    {
        let mut t: u64 = target;
        let mut v = value;
        let ghost planned = crate::machine::at(self@, *regs).unwinding(target, value);
        loop
            invariant
                self.wf(),
                regs.ok(),
                t <= crate::machine::OFFSET_LIMIT,
                planned == crate::machine::at(old(self)@, *old(regs)).unwinding(target, value),
                planned == crate::machine::at(self@, *regs).unwinding(t, v),
                self@.temp_roots.len() == old(self)@.temp_roots.len(),
            decreases regs.frame,
        {
            let flags: i64 = self.int_field(regs.stack, regs.frame + FRAME_FLAGS as u64);
            if regs.frame == t {
                if flags & 8 != 0 {
                    let (t1, v1) = self.resume_unwind(regs)?;
                    self.counters.unwind_runs = self.counters.unwind_runs.wrapping_add(1);
                    t = t1;
                    v = v1;
                } else {
                    self.return_plain(regs, v);
                    return Ok(());
                }
            } else if regs.frame < t {
                return fatal("unwind target not on the frame chain");
            } else {
                if flags & 2 != 0 {
                    let hsb: u64 = self.handler_base_of(regs.method);
                    let block = self.get(regs, hsb + ENSURE_SLOT_BLOCK as u64);
                    if self.is_a(block, CLASS_BLOCKCLOSURE) {
                        return self.run_ensure(regs, t, v, hsb, block);
                    }
                }
                let caller: i64 = self.int_field(regs.stack, regs.frame + FRAME_CALLER as u64);
                if caller == 0 {
                    return fatal("unwind past base frame");
                }
                let c: u64 = offset_from(caller);
                if c >= regs.frame {
                    return fatal("corrupt frame chain");
                }
                self.pop_frame(regs, c);
            }
        }
    }

    /// Return a value from the current frame.
    pub fn do_return(&mut self, regs: &mut Regs, value: Value) -> (r: Result<(), VmError>)
        requires
            old(self).wf(),
            old(regs).ok(),
        ensures
            final(self).wf(),
            final(regs).ok(),
            crate::machine::ran(
                r,
                crate::machine::at(final(self)@, *final(regs)),
                crate::machine::at(old(self)@, *old(regs)).returned(value),
            ),
            r is Ok ==> final(self)@.temp_roots.len() == old(self)@.temp_roots.len(),
            final(self)@.temp_roots.len() >= old(self)@.temp_roots.len(),
    {
        let f: u64 = regs.frame;
        self.unwind(regs, f, value)
    }

    /// Unwind to a frame and return a value from it.
    pub fn unwind_and_return_from(&mut self, regs: &mut Regs, target: u64, value: Value) -> (r:
        Result<(), VmError>)
        requires
            old(self).wf(),
            old(regs).ok(),
            target <= crate::machine::OFFSET_LIMIT,
        ensures
            final(self).wf(),
            final(regs).ok(),
            crate::machine::ran(
                r,
                crate::machine::at(final(self)@, *final(regs)),
                crate::machine::at(old(self)@, *old(regs)).unwound(target, value),
            ),
            r is Ok ==> final(self)@.temp_roots.len() == old(self)@.temp_roots.len(),
            final(self)@.temp_roots.len() >= old(self)@.temp_roots.len(),
    {
        self.counters.unwind_runs = self.counters.unwind_runs.wrapping_add(1);
        self.unwind(regs, target, value)
    }

    /// Put a stack that stops running in the remembered set when it is old.
    pub(crate) fn remember_stack(&mut self, stack: Value)
        requires
            old(self).wf(),
        ensures
            final(self).wf(),
            final(self)@ == old(self)@.stack_remembered(stack),
    {
        if self.heap.tenured(stack) && self.heap.plausible_at(stack.0) {
            self.heap.remember(stack);
        }
    }

    /// The context switch.
    #[verifier::rlimit(60)]
    pub fn transfer_to(&mut self, regs: &mut Regs, target: Value)
        requires
            old(self).wf(),
            old(regs).ok(),
        ensures
            final(self).wf(),
            final(regs).ok(),
            crate::machine::at(final(self)@, *final(regs)) == crate::machine::at(
                old(self)@,
                *old(regs),
            ).switched(target),
            final(self)@.temp_roots == old(self)@.temp_roots,
    {
        reveal(Machine::switched);
        self.counters.process_switches = self.counters.process_switches.wrapping_add(1);
        let nil = self.nil();
        let cur = self.active_process;
        if cur.is_ptr() && cur != nil {
            let stack = self.field(cur, PROCESS_STACK as u64);
            if stack != nil {
                self.save_regs(regs);
                self.remember_stack(stack);
            }
        }
        let sched = self.specials[SPECIAL_PROCESSOR];
        self.store_field(sched, SCHEDULER_ACTIVE_PROCESS as u64, target);
        self.active_process = target;
        *regs = self.load_regs();
    }
}

} // verus!
