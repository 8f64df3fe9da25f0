//! The interpreter's instructions: one 32-bit word each, decoded with shifts
//! and masks, operating on frame slots in the active process's stack.

use crate::arith::int_binary;
use crate::counters::CountersView;
use crate::machine::{offset_from, HostCall, Machine, Pending, Regs, OFFSET_LIMIT};
use crate::profile::SafepointShared;
use crate::requests::{Ask, HostRequest, Outcome, PrimOutcome};
use crate::text::{append_dec, append_hex, text};
use crate::value::Value;
use crate::vm::{fatal, Fault, Vm, VmError, VmView};
use crate::treaty::{
    BI_HAS_NLR_SHIFT, BLOCK_INFO, CLASS_BLOCKCLOSURE, CLASS_BOX, CLOSURE_CAPTURED_BASE,
    CLOSURE_COMPILED_BLOCK, CLOSURE_HOME_OFFSET, CLOSURE_HOME_PROCESS, CLOSURE_HOME_SERIAL,
    FMT_FIXED, FRAME_CALLER, FRAME_FLAGS, FRAME_RETINFO, OP_ADD, OP_AT, OP_ATPUT, OP_BREAK,
    OP_CAPTURE, OP_CLASSOF, OP_DIV, OP_EQNUM, OP_GE, OP_GETBOX, OP_GETIVAR, OP_GT, OP_IDEQ,
    OP_JUMP, OP_JUMPFALSE, OP_JUMPTRUE, OP_LE, OP_LOADFALSE, OP_LOADINT, OP_LOADK, OP_LOADNIL,
    OP_LOADSELF, OP_LOADTRUE, OP_LT, OP_MKBOX, OP_MKCLOSURE, OP_MOD, OP_MOVE, OP_MUL, OP_NLR,
    OP_NOP, OP_PRIM, OP_RET, OP_RETSELF, OP_SEND, OP_SENDSUPER, OP_SETBOX, OP_SETIVAR, OP_SIZE,
    OP_SUB, PRIM_INT_ADD, PRIM_INT_DIV, PRIM_INT_EQ, PRIM_INT_GE, PRIM_INT_GT, PRIM_INT_LE,
    PRIM_INT_LT, PRIM_INT_MOD, PRIM_INT_MUL, PRIM_INT_SUB, PROCESS_STACK, RETINFO_PC_SHIFT,
    SERIAL_SHIFT, SITE_ARGC, SITE_SELECTOR, SITE_STATIC_CLASS, SITE_STRIDE,
    SPECIAL_SEL_MUST_BE_BOOLEAN, SPECSEL_AT, SPECSEL_AT_PUT, SPECSEL_COUNT, SPECSEL_EQ,
    SPECSEL_GE, SPECSEL_GT, SPECSEL_INT_DIV, SPECSEL_LE, SPECSEL_LT, SPECSEL_MINUS, SPECSEL_MOD,
    SPECSEL_NOT, SPECSEL_PLUS, SPECSEL_SIZE, SPECSEL_TIMES,
};
use vstd::prelude::*;
use vstd::string::*;

verus! {

// ---------------------------------------------------------------------------
// Decoding
// ---------------------------------------------------------------------------
/// The fields of an instruction word.
#[derive(Clone, Copy, PartialEq, Eq, Structural, Debug)]
pub struct Fields {
    pub op: u8,
    pub a: u8,
    pub b: u8,
    pub c: u8,
    pub d: u16,
}

pub open spec fn fields(w: u32) -> Fields {
    Fields {
        op: (w & 0xff) as u8,
        a: ((w >> 8u32) & 0xff) as u8,
        b: ((w >> 16u32) & 0xff) as u8,
        c: (w >> 24u32) as u8,
        d: (w >> 16u32) as u16,
    }
}

pub fn split_word(w: u32) -> (f: Fields)
    ensures
        f == fields(w),
{
    Fields {
        op: (w & 0xff) as u8,
        a: ((w >> 8u32) & 0xff) as u8,
        b: ((w >> 16u32) & 0xff) as u8,
        c: (w >> 24u32) as u8,
        d: (w >> 16u32) as u16,
    }
}

/// Where a jump leads; a target before the first instruction is beyond
/// every method.
pub open spec fn jump_target(pc: u64, off: i16) -> u64 {
    if 0 <= pc + off <= OFFSET_LIMIT {
        (pc + off) as u64
    } else {
        OFFSET_LIMIT
    }
}

fn jump_to(pc: u64, off: i16) -> (t: u64)
    requires
        pc <= OFFSET_LIMIT,
    ensures
        t == jump_target(pc, off),
{
    let t: i64 = pc as i64 + off as i64;
    if t >= 0 && t as u64 <= OFFSET_LIMIT {
        t as u64
    } else {
        OFFSET_LIMIT
    }
}

/// The fatal error on a word with an unknown opcode.
pub open spec fn illegal_text(op: u8, pc: u64) -> Seq<char> {
    "illegal opcode 0x"@ + crate::text::hex(op as int) + " at pc "@ + crate::text::dec(pc as int)
}

fn illegal_message(op: u8, pc: u64) -> (s: String)
    ensures
        s@ == illegal_text(op, pc),
{
    let mut s = text("illegal opcode 0x");
    append_hex(&mut s, op as u64);
    s.append(" at pc ");
    append_dec(&mut s, pc);
    s
}

/// The primitive that does what an arithmetic instruction does.
pub open spec fn arith_prim(op: u8) -> u16 {
    if op == OP_ADD {
        PRIM_INT_ADD
    } else if op == OP_SUB {
        PRIM_INT_SUB
    } else if op == OP_MUL {
        PRIM_INT_MUL
    } else if op == OP_DIV {
        PRIM_INT_DIV
    } else {
        PRIM_INT_MOD
    }
}

pub open spec fn compare_prim(op: u8) -> u16 {
    if op == OP_LT {
        PRIM_INT_LT
    } else if op == OP_GT {
        PRIM_INT_GT
    } else if op == OP_LE {
        PRIM_INT_LE
    } else if op == OP_GE {
        PRIM_INT_GE
    } else {
        PRIM_INT_EQ
    }
}

/// The specialized selector of an arithmetic or comparison instruction.
pub open spec fn op_selector(op: u8) -> usize {
    if op == OP_ADD {
        SPECSEL_PLUS
    } else if op == OP_SUB {
        SPECSEL_MINUS
    } else if op == OP_MUL {
        SPECSEL_TIMES
    } else if op == OP_DIV {
        SPECSEL_INT_DIV
    } else if op == OP_MOD {
        SPECSEL_MOD
    } else if op == OP_LT {
        SPECSEL_LT
    } else if op == OP_GT {
        SPECSEL_GT
    } else if op == OP_LE {
        SPECSEL_LE
    } else if op == OP_GE {
        SPECSEL_GE
    } else {
        SPECSEL_EQ
    }
}

fn prim_of_arith(op: u8) -> (n: u16)
    ensures
        n == arith_prim(op),
{
    if op == OP_ADD {
        PRIM_INT_ADD
    } else if op == OP_SUB {
        PRIM_INT_SUB
    } else if op == OP_MUL {
        PRIM_INT_MUL
    } else if op == OP_DIV {
        PRIM_INT_DIV
    } else {
        PRIM_INT_MOD
    }
}

fn prim_of_compare(op: u8) -> (n: u16)
    ensures
        n == compare_prim(op),
{
    if op == OP_LT {
        PRIM_INT_LT
    } else if op == OP_GT {
        PRIM_INT_GT
    } else if op == OP_LE {
        PRIM_INT_LE
    } else if op == OP_GE {
        PRIM_INT_GE
    } else {
        PRIM_INT_EQ
    }
}

fn selector_of_op(op: u8) -> (n: usize)
    ensures
        n == op_selector(op),
        n < SPECSEL_COUNT,
{
    if op == OP_ADD {
        SPECSEL_PLUS
    } else if op == OP_SUB {
        SPECSEL_MINUS
    } else if op == OP_MUL {
        SPECSEL_TIMES
    } else if op == OP_DIV {
        SPECSEL_INT_DIV
    } else if op == OP_MOD {
        SPECSEL_MOD
    } else if op == OP_LT {
        SPECSEL_LT
    } else if op == OP_GT {
        SPECSEL_GT
    } else if op == OP_LE {
        SPECSEL_LE
    } else if op == OP_GE {
        SPECSEL_GE
    } else {
        SPECSEL_EQ
    }
}

// ---------------------------------------------------------------------------
// What instructions do
// ---------------------------------------------------------------------------
impl Machine {
    pub open spec fn stopped(self, msg: Seq<char>) -> Result<Machine, Fault> {
        Err(Fault::Fatal(msg, self.vm))
    }

    pub open spec fn at_pc(self, pc: u64) -> Machine {
        Machine { regs: Regs { pc, ..self.regs }, ..self }
    }

    // --- Safepoints ---
    /// A due sample taken; the request is consumed in any case.
    #[verifier::opaque]
    pub open spec fn sample_serviced(self) -> Machine {
        let v = VmView {
            safepoint: SafepointShared { sample_due: false, ..self.vm.safepoint },
            ..self.vm
        };
        if self.vm.safepoint.sample_due && self.vm.prof.active {
            self.on(v.sample_taken(self.regs.stack, self.regs.frame as int, None))
        } else {
            self.on(v)
        }
    }

    /// Due timers fired; the flag stays up while timers are pending.
    #[verifier::opaque]
    pub open spec fn timers_serviced(self) -> Machine {
        let v = self.vm.timers_served();
        self.on(
            VmView {
                safepoint: SafepointShared { armed: v.timer_times.len() > 0, ..v.safepoint },
                ..v
            },
        )
    }

    /// A runnable process of higher priority takes over.
    #[verifier::opaque]
    pub open spec fn preempted(self) -> Machine {
        let cur = self.vm.active;
        if self.vm.ceiling() matches Some(hp) && hp > self.vm.priority(cur) {
            let (v, next) = self.vm.made_runnable(cur).next_runnable();
            match next {
                Some(p) => self.on(v).switched(p),
                None => self.on(v),
            }
        } else {
            self
        }
    }

    /// A due sample, timer expiry, and preemption.
    pub open spec fn serviced(self) -> Machine {
        self.sample_serviced().timers_serviced().preempted()
    }

    /// The gap since the last poll recorded, when the switch is open.
    pub open spec fn gap_recorded(self) -> Machine {
        if self.vm.ctr.gate {
            self.on(VmView { ctr: self.vm.ctr.gap_recorded(), ..self.vm })
        } else {
            self
        }
    }

    /// A sample at this poll, when every poll is to be sampled.
    #[verifier::opaque]
    pub open spec fn sampled_at_poll(self) -> Machine {
        if self.vm.prof.every_poll && self.vm.prof.active {
            self.on(
                self.vm.saved(self.regs).sample_taken(
                    self.regs.stack,
                    self.regs.frame as int,
                    None,
                ),
            )
        } else {
            self
        }
    }

    /// A safepoint poll.
    #[verifier::opaque]
    pub open spec fn polled(self) -> Machine {
        let m0 = self.gap_recorded();
        let m1 = m0.sampled_at_poll();
        if m1.vm.safepoint.armed {
            let m2 = m1.saved().serviced();
            Machine { regs: m2.vm.refreshed(m2.regs), ..m2 }
        } else {
            m1
        }
    }

    // --- Data movement ---
    #[verifier::opaque]
    pub open spec fn moved(self, f: Fields) -> Result<Machine, Fault> {
        let a = f.a as int;
        if f.op == OP_NOP {
            Ok(self)
        } else if f.op == OP_BREAK {
            self.stopped("BREAK executed"@)
        } else if f.op == OP_MOVE {
            Ok(self.put(a, self.get(f.b as int)))
        } else if f.op == OP_LOADK {
            Ok(self.put(a, self.vm.field(self.regs.lits, f.d as int)))
        } else if f.op == OP_LOADINT {
            Ok(self.put(a, crate::value::tag(f.d as i16 as i64)))
        } else if f.op == OP_LOADNIL {
            Ok(self.put(a, self.vm.nil()))
        } else if f.op == OP_LOADTRUE {
            Ok(self.put(a, self.vm.true_v()))
        } else if f.op == OP_LOADFALSE {
            Ok(self.put(a, self.vm.false_v()))
        } else {
            Ok(self.put(a, self.get(0)))
        }
    }

    #[verifier::opaque]
    pub open spec fn accessed(self, f: Fields) -> Result<Machine, Fault> {
        let recv = self.get(0);
        if f.op == OP_GETIVAR {
            if !recv.tagged_ptr() {
                self.stopped("GETIVAR on immediate receiver"@)
            } else {
                Ok(self.put(f.a as int, self.vm.field(recv, f.b as int)))
            }
        } else if f.op == OP_SETIVAR {
            if !recv.tagged_ptr() {
                self.stopped("SETIVAR on immediate receiver"@)
            } else {
                Ok(self.on(self.vm.with_stored(recv, f.a as int, self.get(f.b as int))))
            }
        } else if f.op == OP_GETBOX {
            let boxed = self.get(f.b as int);
            if !boxed.tagged_ptr() {
                self.stopped("GETBOX on non-box"@)
            } else {
                Ok(self.put(f.a as int, self.vm.field(boxed, 0)))
            }
        } else if f.op == OP_SETBOX {
            let boxed = self.get(f.a as int);
            if !boxed.tagged_ptr() {
                self.stopped("SETBOX on non-box"@)
            } else {
                Ok(self.on(self.vm.with_stored(boxed, 0, self.get(f.b as int))))
            }
        } else {
            match self.allocated(CLASS_BOX, FMT_FIXED, 1) {
                Err(e) => Err(e),
                Ok((m, v)) => Ok(
                    m.on(m.vm.with_field(v, 0, m.get(f.b as int))).put(f.a as int, v),
                ),
            }
        }
    }

    // --- Control ---
    /// A jump taken; a backward jump polls.
    pub open spec fn jumped(self, off: i16) -> Machine {
        let m = self.at_pc(jump_target(self.regs.pc, off));
        if off < 0 {
            m.polled()
        } else {
            m
        }
    }

    /// A conditional jump. Anything but a boolean is sent
    /// `mustBeBoolean`, whose result replaces it, and the jump is made
    /// again.
    #[verifier::opaque]
    pub open spec fn branched(self, f: Fields) -> Result<Machine, Fault> {
        let v = self.get(f.a as int);
        let want = self.vm.bool_v(f.op == OP_JUMPTRUE);
        let other = self.vm.bool_v(f.op != OP_JUMPTRUE);
        if v == want {
            Ok(self.jumped(f.d as i16))
        } else if v == other {
            Ok(self)
        } else {
            let vm = VmView {
                ctr: CountersView {
                    must_be_boolean: self.vm.ctr.must_be_boolean.wrapping_add(1),
                    ..self.vm.ctr
                },
                ..self.vm
            };
            self.on(vm).at_pc((self.regs.pc - 1) as u64).staged(
                f.a,
                vm.specials[SPECIAL_SEL_MUST_BE_BOOLEAN as int],
                seq![v],
            )
        }
    }

    /// What becomes of the outcome of a PRIM instruction: a value returns
    /// from the frame, a failure is left in the slot after the arguments.
    #[verifier::opaque]
    pub open spec fn inline_applied(self, call: HostCall, o: Outcome) -> Result<Machine, Fault> {
        match o {
            Outcome::Value(v) => self.returned(v),
            Outcome::Control => Ok(self),
            Outcome::Fail(c) => Ok(self.put(1 + call.argc as int, crate::value::tag(c))),
            Outcome::Ask(a) => Ok(
                Machine {
                    vm: VmView { request: Some(a), ..self.vm },
                    regs: Regs { pending: Pending::Host(call), ..self.regs },
                },
            ),
        }
    }

    #[verifier::opaque]
    pub open spec fn prim_executed(self, n: u16) -> Result<Machine, Fault> {
        let method = self.regs.method;
        let argc = crate::vm::mh_argc(self.vm.method_bits(method));
        match self.primitive(n, 0, argc, 0) {
            Err(e) => Err(e),
            Ok((m, o)) => m.inline_applied(
                HostCall { prim: n, method, r: 0, dest: 0, argc: argc as u64, inline: true },
                o,
            ),
        }
    }

    // --- Sends ---
    /// The machine stopped at the send it is about to make, asking the host
    /// to save its image; the send is made again after that.
    #[verifier::opaque]
    pub open spec fn snapshot_asked(self, path: Seq<char>) -> Result<Machine, Fault> {
        let pc = if self.regs.pc == 0 {
            0
        } else {
            (self.regs.pc - 1) as u64
        };
        match self.at_pc(pc).young_emptied() {
            Err(e) => Err(e),
            Ok(m) => {
                let (vm, image) = m.vm.imaged();
                match image {
                    Err(e) => Err(e),
                    Ok(image) => Ok(
                        Machine {
                            vm: VmView { request: Some(Ask::SaveImage { path, image }), ..vm },
                            regs: Regs { pending: Pending::Snapshot, replay: true, ..m.regs },
                        },
                    ),
                }
            },
        }
    }

    /// The send in the site table's entry `c`.
    #[verifier::opaque]
    pub open spec fn site_sent(self, f: Fields) -> Result<Machine, Fault> {
        let sites = self.regs.sites;
        let base = f.c * SITE_STRIDE;
        let argc = self.vm.int_field(sites, base + SITE_ARGC);
        if sites == self.vm.nil() {
            self.stopped("SEND without send-site table"@)
        } else if !(0 <= argc <= 250) {
            self.stopped("malformed send site"@)
        } else {
            self.sent(
                f.a,
                f.b,
                self.vm.field(sites, base + SITE_SELECTOR),
                argc as int,
                Some(base),
                if f.op == OP_SENDSUPER {
                    Some(self.vm.field(sites, base + SITE_STATIC_CLASS))
                } else {
                    None
                },
            )
        }
    }

    /// A SEND instruction: a poll, the snapshot when it is due at this send,
    /// and the send.
    #[verifier::opaque]
    pub open spec fn send_executed(self, f: Fields, fresh: bool) -> Result<Machine, Fault> {
        if !fresh {
            self.site_sent(f)
        } else {
            let m0 = self.polled();
            match m0.vm.snap {
                None => m0.site_sent(f),
                Some((n, path)) => {
                    let seen = m0.vm.sends_seen.wrapping_add(1);
                    let m1 = m0.on(VmView { sends_seen: seen, ..m0.vm });
                    if seen == n {
                        m1.snapshot_asked(path)
                    } else {
                        m1.site_sent(f)
                    }
                },
            }
        }
    }

    // --- Closures ---
    /// The home of a closure that can return from it: the running frame, or
    /// the home of the closure that runs.
    #[verifier::opaque]
    pub open spec fn homed(self, closure: Value, nlr: bool) -> Machine {
        let flags = self.flags_at(self.regs.frame as int).int_value();
        let encl = self.get(0);
        let (p, o, s) = if !nlr {
            (self.vm.nil(), crate::value::tag(0), crate::value::tag(0))
        } else if flags & 4 != 0 {
            (
                self.vm.field(encl, CLOSURE_HOME_PROCESS as int),
                self.vm.field(encl, CLOSURE_HOME_OFFSET as int),
                self.vm.field(encl, CLOSURE_HOME_SERIAL as int),
            )
        } else {
            (
                self.vm.active,
                crate::value::tag(self.regs.frame as i64),
                crate::value::tag((flags >> 32u32) as i64),
            )
        };
        self.on(
            self.vm.with_field(closure, CLOSURE_HOME_PROCESS as int, p).with_field(
                closure,
                CLOSURE_HOME_OFFSET as int,
                o,
            ).with_field(closure, CLOSURE_HOME_SERIAL as int, s),
        )
    }

    #[verifier::opaque]
    pub open spec fn closure_made(self, f: Fields) -> Result<Machine, Fault> {
        let info = self.vm.int_field(
            self.vm.field(self.regs.lits, f.d as int),
            BLOCK_INFO as int,
        );
        let captured = (info & 0xff) as int;
        match self.allocated(
            CLASS_BLOCKCLOSURE,
            FMT_FIXED,
            CLOSURE_CAPTURED_BASE + captured,
        ) {
            Err(e) => Err(e),
            Ok((m, c)) => {
                let m1 = m.on(
                    m.vm.with_field(
                        c,
                        CLOSURE_COMPILED_BLOCK as int,
                        m.vm.field(m.regs.lits, f.d as int),
                    ),
                ).homed(c, (info >> 8u32) & 1 != 0).put(f.a as int, c);
                Ok(Machine { regs: Regs { closure_reg: Some(f.a), ..m1.regs }, ..m1 })
            },
        }
    }

    #[verifier::opaque]
    pub open spec fn captured(self, f: Fields) -> Result<Machine, Fault> {
        match self.regs.closure_reg {
            None => self.stopped("CAPTURE without preceding MKCLOSURE"@),
            Some(k) => Ok(
                self.on(
                    self.vm.with_stored(
                        self.get(k as int),
                        CLOSURE_CAPTURED_BASE + f.a,
                        self.get(f.b as int),
                    ),
                ),
            ),
        }
    }

    /// The home frame of a closure is still on the running stack.
    pub open spec fn home_alive(self, closure: Value) -> bool {
        let p = self.vm.field(closure, CLOSURE_HOME_PROCESS as int);
        let o = self.vm.field(closure, CLOSURE_HOME_OFFSET as int);
        let s = self.vm.field(closure, CLOSURE_HOME_SERIAL as int);
        let t = crate::machine::offset_of(o.int_value());
        &&& p == self.vm.active
        &&& p != self.vm.nil()
        &&& self.vm.field(p, PROCESS_STACK as int) != self.vm.nil()
        &&& o.tagged_int()
        &&& t <= self.regs.frame
        &&& self.has_serial(t, s.int_value())
    }

    /// A return from a block whose home is gone: the block's activation is
    /// replaced by a send of `cannotReturn:`.
    #[verifier::opaque]
    pub open spec fn cannot_return(self, closure: Value, v: Value) -> Result<Machine, Fault> {
        match self.vm.interned("cannotReturn:".spec_bytes()) {
            None => Err(Fault::OutOfMemory(self.vm)),
            Some((vm, sel)) => {
                let m0 = self.on(vm);
                let caller = vm.int_field(self.regs.stack, self.regs.frame + FRAME_CALLER);
                let ri = vm.int_field(self.regs.stack, self.regs.frame + FRAME_RETINFO);
                if caller == 0 {
                    m0.stopped("NLR with dead home from a base frame"@)
                } else {
                    m0.popped(crate::machine::offset_of(caller)).at_pc(
                        crate::machine::offset_of((ri >> 8u32) as i64),
                    ).staged((ri & 0xff) as u8, sel, seq![closure, v])
                }
            },
        }
    }

    /// A non-local return.
    #[verifier::opaque]
    pub open spec fn nonlocal(self, f: Fields) -> Result<Machine, Fault> {
        let m = self.on(
            VmView {
                ctr: CountersView { nlrs: self.vm.ctr.nlrs.wrapping_add(1), ..self.vm.ctr },
                ..self.vm
            },
        );
        let v = m.get(f.a as int);
        let closure = m.get(0);
        if m.home_alive(closure) {
            m.unwound(
                crate::machine::offset_of(
                    m.vm.field(closure, CLOSURE_HOME_OFFSET as int).int_value(),
                ),
                v,
            )
        } else {
            m.cannot_return(closure, v)
        }
    }

    // --- Specialized sends ---
    #[verifier::opaque]
    pub open spec fn computed(self, f: Fields) -> Result<Machine, Fault> {
        let x = self.get(f.b as int);
        let y = self.get(f.c as int);
        let r = if x.tagged_int() && y.tagged_int() {
            crate::arith::int_op(arith_prim(f.op), x.int_value(), y.int_value())
        } else {
            None
        };
        match r {
            Some(z) => Ok(self.put(f.a as int, crate::value::tag(z))),
            None => self.specialized_sent(op_selector(f.op) as int, f.a, seq![x, y]),
        }
    }

    #[verifier::opaque]
    pub open spec fn compared(self, f: Fields) -> Result<Machine, Fault> {
        let x = self.get(f.b as int);
        let y = self.get(f.c as int);
        if x.tagged_int() && y.tagged_int() {
            Ok(
                self.put(
                    f.a as int,
                    self.vm.bool_v(
                        crate::prims::int_test(compare_prim(f.op), x.int_value(), y.int_value()),
                    ),
                ),
            )
        } else {
            self.specialized_sent(op_selector(f.op) as int, f.a, seq![x, y])
        }
    }

    #[verifier::opaque]
    pub open spec fn queried(self, f: Fields) -> Result<Machine, Fault> {
        let a = f.a as int;
        let x = self.get(f.b as int);
        let y = self.get(f.c as int);
        let z = self.get(f.c + 1);
        if f.op == OP_IDEQ {
            Ok(self.put(a, self.vm.bool_v(x == y)))
        } else if f.op == OP_AT {
            match self.vm.at(x, y) {
                Some(v) => Ok(self.put(a, v)),
                None => self.specialized_sent(SPECSEL_AT as int, f.a, seq![x, y]),
            }
        } else if f.op == OP_ATPUT {
            match self.vm.at_put(x, y, z) {
                Some(vm) => Ok(self.on(vm).put(a, z)),
                None => self.specialized_sent(SPECSEL_AT_PUT as int, f.a, seq![x, y, z]),
            }
        } else if f.op == OP_SIZE {
            match self.vm.size(x) {
                Some(v) => Ok(self.put(a, v)),
                None => self.specialized_sent(SPECSEL_SIZE as int, f.a, seq![x]),
            }
        } else if f.op == OP_CLASSOF {
            Ok(self.put(a, self.vm.class_value(x)))
        } else if x == self.vm.true_v() {
            Ok(self.put(a, self.vm.false_v()))
        } else if x == self.vm.false_v() {
            Ok(self.put(a, self.vm.true_v()))
        } else {
            self.specialized_sent(SPECSEL_NOT as int, f.a, seq![x])
        }
    }

    // --- One instruction ---
    /// The instruction with the given fields, fetched from the word before
    /// `pc`. It is `fresh` unless it was polled and counted before.
    #[verifier::opaque]
    pub open spec fn executed(self, f: Fields, fresh: bool) -> Result<Machine, Fault> {
        if f.op <= OP_BREAK || OP_MOVE <= f.op <= OP_LOADSELF {
            self.moved(f)
        } else if OP_GETIVAR <= f.op <= OP_MKBOX {
            self.accessed(f)
        } else if f.op == OP_JUMP {
            Ok(self.jumped(f.d as i16))
        } else if f.op == OP_JUMPTRUE || f.op == OP_JUMPFALSE {
            self.branched(f)
        } else if f.op == OP_RET {
            self.returned(self.get(f.a as int))
        } else if f.op == OP_RETSELF {
            self.returned(self.get(0))
        } else if f.op == OP_NLR {
            self.nonlocal(f)
        } else if f.op == OP_PRIM {
            self.prim_executed(f.d)
        } else if f.op == OP_SEND || f.op == OP_SENDSUPER {
            self.send_executed(f, fresh)
        } else if f.op == OP_MKCLOSURE {
            self.closure_made(f)
        } else if f.op == OP_CAPTURE {
            self.captured(f)
        } else if OP_ADD <= f.op <= OP_MOD {
            self.computed(f)
        } else if OP_LT <= f.op <= OP_EQNUM {
            self.compared(f)
        } else if OP_AT <= f.op <= OP_IDEQ {
            self.queried(f)
        } else {
            self.stopped(illegal_text(f.op, (self.regs.pc - 1) as u64))
        }
    }

    /// CAPTURE reaches back over CAPTUREs only.
    pub open spec fn closure_kept(self, op: u8) -> Machine {
        if op == OP_MKCLOSURE || op == OP_CAPTURE {
            self
        } else {
            Machine { regs: Regs { closure_reg: None, ..self.regs }, ..self }
        }
    }

    /// One instruction fetched and executed.
    #[verifier::opaque]
    pub open spec fn stepped(self) -> Result<Machine, Fault> {
        match self.vm.insn(self.regs.code, self.regs.pc as int) {
            None => self.stopped("pc outside of the method's code"@),
            Some(w) => {
                let f = fields(w);
                let fresh = !self.regs.replay;
                let vm = if fresh {
                    VmView { ctr: self.vm.ctr.dispatched(f.op), ..self.vm }
                } else {
                    self.vm
                };
                let m = Machine {
                    vm,
                    regs: Regs { pc: (self.regs.pc + 1) as u64, replay: false, ..self.regs },
                };
                match m.executed(f, fresh) {
                    Err(e) => Err(e),
                    Ok(m1) => Ok(m1.closure_kept(f.op)),
                }
            },
        }
    }
}

impl Vm {
    fn service_sample(&mut self, regs: &mut Regs)
        requires
            old(self).wf(),
            old(regs).ok(),
        ensures
            final(self).wf(),
            final(regs).ok(),
            crate::machine::at(final(self)@, *final(regs)) == crate::machine::at(
                old(self)@,
                *old(regs),
            ).sample_serviced(),
            final(self)@.temp_roots == old(self)@.temp_roots,
    {
        reveal(Machine::sample_serviced);
        let due = self.safepoint.sample_due && self.profiler.active;
        self.safepoint = SafepointShared { armed: self.safepoint.armed, sample_due: false };
        if due {
            self.take_sample(regs.stack, regs.frame, None);
        }
    }

    fn rearm(&mut self, regs: &mut Regs)
        requires
            old(self).wf(),
            old(regs).ok(),
        ensures
            final(self).wf(),
            final(regs).ok(),
            crate::machine::at(final(self)@, *final(regs)) == crate::machine::at(
                old(self)@,
                *old(regs),
            ).timers_serviced(),
            final(self)@.temp_roots == old(self)@.temp_roots,
    {
        reveal(Machine::timers_serviced);
        self.service_timers();
        self.safepoint = SafepointShared {
            armed: self.timer_times.len() > 0,
            sample_due: self.safepoint.sample_due,
        };
    }

    fn preempt(&mut self, regs: &mut Regs)
        requires
            old(self).wf(),
            old(regs).ok(),
        ensures
            final(self).wf(),
            final(regs).ok(),
            crate::machine::at(final(self)@, *final(regs)) == crate::machine::at(
                old(self)@,
                *old(regs),
            ).preempted(),
            final(self)@.temp_roots == old(self)@.temp_roots,
    {
        reveal(Machine::preempted);
        let cur = self.active_process;
        let prio: i64 = self.process_priority(cur);
        if let Some(hp) = self.runnable_priority_ceiling() {
            if hp > prio {
                self.make_runnable(cur);
                if let Some(next) = self.take_next_runnable() {
                    self.transfer_to(regs, next);
                }
            }
        }
    }

    fn service_safepoint(&mut self, regs: &mut Regs)
        requires
            old(self).wf(),
            old(regs).ok(),
        ensures
            final(self).wf(),
            final(regs).ok(),
            crate::machine::at(final(self)@, *final(regs)) == crate::machine::at(
                old(self)@,
                *old(regs),
            ).serviced(),
            final(self)@.temp_roots == old(self)@.temp_roots,
    {
        self.service_sample(regs);
        self.rearm(regs);
        self.preempt(regs);
    }

    fn sample_at_poll(&mut self, regs: &mut Regs)
        requires
            old(self).wf(),
            old(regs).ok(),
        ensures
            final(self).wf(),
            final(regs).ok(),
            crate::machine::at(final(self)@, *final(regs)) == crate::machine::at(
                old(self)@,
                *old(regs),
            ).sampled_at_poll(),
            final(self)@.temp_roots == old(self)@.temp_roots,
    {
        reveal(Machine::sampled_at_poll);
        if self.profiler.sample_every_poll && self.profiler.active {
            self.save_regs(regs);
            self.take_sample(regs.stack, regs.frame, None);
        }
    }

    /// Poll: every send and every backward jump comes here.
    pub fn poll_safepoint(&mut self, regs: &mut Regs)
        requires
            old(self).wf(),
            old(regs).ok(),
        ensures
            final(self).wf(),
            final(regs).ok(),
            crate::machine::at(final(self)@, *final(regs)) == crate::machine::at(
                old(self)@,
                *old(regs),
            ).polled(),
            final(self)@.temp_roots == old(self)@.temp_roots,
    {
        reveal(Machine::polled);
        if self.counters.gate {
            self.counters.record_gap();
        }
        self.sample_at_poll(regs);
        if self.safepoint.armed {
            self.save_regs(regs);
            self.service_safepoint(regs);
            self.refresh_regs(regs);
        }
    }

    fn move_op(&mut self, regs: &mut Regs, f: Fields) -> (res: Result<(), VmError>)
        requires
            old(self).wf(),
            old(regs).ok(),
        ensures
            final(self).wf(),
            final(regs).ok(),
            crate::machine::ran(
                res,
                crate::machine::at(final(self)@, *final(regs)),
                crate::machine::at(old(self)@, *old(regs)).moved(f),
            ),
            res is Ok ==> final(self)@.temp_roots.len() == old(self)@.temp_roots.len(),
            final(self)@.temp_roots.len() >= old(self)@.temp_roots.len(),
    {
        reveal(Machine::moved);
        let a: u64 = f.a as u64;
        let v = if f.op == OP_NOP {
            return Ok(());
        } else if f.op == OP_BREAK {
            return fatal("BREAK executed");
        } else if f.op == OP_MOVE {
            self.get(regs, f.b as u64)
        } else if f.op == OP_LOADK {
            self.field(regs.lits, f.d as u64)
        } else if f.op == OP_LOADINT {
            Value::tagged(f.d as i16 as i64)
        } else if f.op == OP_LOADNIL {
            self.nil()
        } else if f.op == OP_LOADTRUE {
            self.true_v()
        } else if f.op == OP_LOADFALSE {
            self.false_v()
        } else {
            self.get(regs, 0)
        };
        self.put(regs, a, v);
        Ok(())
    }

    fn access_op(&mut self, regs: &mut Regs, f: Fields) -> (res: Result<(), VmError>)
        requires
            old(self).wf(),
            old(regs).ok(),
        ensures
            final(self).wf(),
            final(regs).ok(),
            crate::machine::ran(
                res,
                crate::machine::at(final(self)@, *final(regs)),
                crate::machine::at(old(self)@, *old(regs)).accessed(f),
            ),
            res is Ok ==> final(self)@.temp_roots.len() == old(self)@.temp_roots.len(),
            final(self)@.temp_roots.len() >= old(self)@.temp_roots.len(),
    {
        reveal(Machine::accessed);
        if f.op == OP_GETIVAR {
            let recv = self.get(regs, 0);
            if !recv.is_ptr() {
                return fatal("GETIVAR on immediate receiver");
            }
            let v = self.field(recv, f.b as u64);
            self.put(regs, f.a as u64, v);
        } else if f.op == OP_SETIVAR {
            let recv = self.get(regs, 0);
            if !recv.is_ptr() {
                return fatal("SETIVAR on immediate receiver");
            }
            let v = self.get(regs, f.b as u64);
            self.store_field(recv, f.a as u64, v);
        } else if f.op == OP_GETBOX {
            let boxed = self.get(regs, f.b as u64);
            if !boxed.is_ptr() {
                return fatal("GETBOX on non-box");
            }
            let v = self.field(boxed, 0);
            self.put(regs, f.a as u64, v);
        } else if f.op == OP_SETBOX {
            let boxed = self.get(regs, f.a as u64);
            if !boxed.is_ptr() {
                return fatal("SETBOX on non-box");
            }
            let v = self.get(regs, f.b as u64);
            self.store_field(boxed, 0, v);
        } else {
            let boxed = self.alloc_gc(regs, CLASS_BOX, FMT_FIXED, 1)?;
            let v = self.get(regs, f.b as u64);
            self.set_field(boxed, 0, v);
            self.put(regs, f.a as u64, boxed);
        }
        Ok(())
    }

    fn jump_op(&mut self, regs: &mut Regs, off: i16)
        requires
            old(self).wf(),
            old(regs).ok(),
        ensures
            final(self).wf(),
            final(regs).ok(),
            crate::machine::at(final(self)@, *final(regs)) == crate::machine::at(
                old(self)@,
                *old(regs),
            ).jumped(off),
            final(self)@.temp_roots == old(self)@.temp_roots,
    {
        regs.pc = jump_to(regs.pc, off);
        if off < 0 {
            self.poll_safepoint(regs);
        }
    }

    fn branch_op(&mut self, regs: &mut Regs, f: Fields) -> (res: Result<(), VmError>)
        requires
            old(self).wf(),
            old(regs).ok(),
            old(regs).pc > 0,
        ensures
            final(self).wf(),
            final(regs).ok(),
            crate::machine::ran(
                res,
                crate::machine::at(final(self)@, *final(regs)),
                crate::machine::at(old(self)@, *old(regs)).branched(f),
            ),
            res is Ok ==> final(self)@.temp_roots.len() == old(self)@.temp_roots.len(),
            final(self)@.temp_roots.len() >= old(self)@.temp_roots.len(),
    {
        reveal(Machine::branched);
        let v = self.get(regs, f.a as u64);
        let want = self.bool_v(f.op == OP_JUMPTRUE);
        let other = self.bool_v(f.op != OP_JUMPTRUE);
        if v == want {
            self.jump_op(regs, f.d as i16);
            Ok(())
        } else if v == other {
            Ok(())
        } else {
            self.counters.must_be_boolean = self.counters.must_be_boolean.wrapping_add(1);
            regs.pc = regs.pc - 1;
            let sel = self.specials[SPECIAL_SEL_MUST_BE_BOOLEAN];
            let vals = vec![v];
            assert(vals@ =~= seq![v]);
            self.send_staged(regs, f.a, sel, &vals)
        }
    }

    pub(crate) fn apply_inline(
        &mut self,
        regs: &mut Regs,
        call: HostCall,
        outcome: PrimOutcome,
    ) -> (res: Result<(), VmError>)
        requires
            old(self).wf(),
            old(regs).ok(),
            call.argc <= 0xffff,
        ensures
            final(self).wf(),
            final(regs).ok(),
            crate::machine::ran(
                res,
                crate::machine::at(final(self)@, *final(regs)),
                crate::machine::at(old(self)@, *old(regs)).inline_applied(call, outcome@),
            ),
            res is Ok ==> final(self)@.temp_roots.len() == old(self)@.temp_roots.len(),
            final(self)@.temp_roots.len() >= old(self)@.temp_roots.len(),
    {
        reveal(Machine::inline_applied);
        match outcome {
            PrimOutcome::Value(v) => self.do_return(regs, v),
            PrimOutcome::Control => Ok(()),
            PrimOutcome::Fail(c) => {
                self.put(regs, 1 + call.argc, Value::tagged(c));
                Ok(())
            },
            PrimOutcome::Ask(req) => {
                self.request = Some(req);
                regs.pending = Pending::Host(call);
                Ok(())
            },
        }
    }

    fn prim_op(&mut self, regs: &mut Regs, n: u16) -> (res: Result<(), VmError>)
        requires
            old(self).wf(),
            old(regs).ok(),
        ensures
            final(self).wf(),
            final(regs).ok(),
            crate::machine::ran(
                res,
                crate::machine::at(final(self)@, *final(regs)),
                crate::machine::at(old(self)@, *old(regs)).prim_executed(n),
            ),
            res is Ok ==> final(self)@.temp_roots.len() == old(self)@.temp_roots.len(),
            final(self)@.temp_roots.len() >= old(self)@.temp_roots.len(),
    {
        reveal(Machine::prim_executed);
        let method = regs.method;
        let argc: u64 = self.argc_of(method);
        let outcome = self.run_primitive(regs, n, 0, argc, 0)?;
        let call = HostCall { prim: n, method, r: 0, dest: 0, argc, inline: true };
        self.apply_inline(regs, call, outcome)
    }

    /// Stop at this send and ask the host to save the image.
    fn ask_snapshot(&mut self, regs: &mut Regs, path: String) -> (res: Result<(), VmError>)
        requires
            old(self).wf(),
            old(regs).ok(),
        ensures
            final(self).wf(),
            final(regs).ok(),
            crate::machine::ran(
                res,
                crate::machine::at(final(self)@, *final(regs)),
                crate::machine::at(old(self)@, *old(regs)).snapshot_asked(path@),
            ),
            res is Ok ==> final(self)@.temp_roots.len() == old(self)@.temp_roots.len(),
            final(self)@.temp_roots.len() >= old(self)@.temp_roots.len(),
    {
        reveal(Machine::snapshot_asked);
        regs.pc = if regs.pc == 0 {
            0
        } else {
            regs.pc - 1
        };
        self.empty_young(regs)?;
        let image = self.write_image()?;
        self.request = Some(HostRequest::SaveImage { path, image });
        regs.pending = Pending::Snapshot;
        regs.replay = true;
        Ok(())
    }

    fn site_op(&mut self, regs: &mut Regs, f: Fields) -> (res: Result<(), VmError>)
        requires
            old(self).wf(),
            old(regs).ok(),
        ensures
            final(self).wf(),
            final(regs).ok(),
            crate::machine::ran(
                res,
                crate::machine::at(final(self)@, *final(regs)),
                crate::machine::at(old(self)@, *old(regs)).site_sent(f),
            ),
            res is Ok ==> final(self)@.temp_roots.len() == old(self)@.temp_roots.len(),
            final(self)@.temp_roots.len() >= old(self)@.temp_roots.len(),
    {
        reveal(Machine::site_sent);
        let sites = regs.sites;
        if sites == self.nil() {
            return fatal("SEND without send-site table");
        }
        let base: u64 = f.c as u64 * SITE_STRIDE as u64;
        let argc: i64 = self.int_field(sites, base + SITE_ARGC as u64);
        if argc < 0 || argc > 250 {
            return fatal("malformed send site");
        }
        let selector = self.field(sites, base + SITE_SELECTOR as u64);
        let above = if f.op == OP_SENDSUPER {
            Some(self.field(sites, base + SITE_STATIC_CLASS as u64))
        } else {
            None
        };
        self.do_send(regs, f.a, f.b, selector, argc as u64, Some(base), above)
    }

    fn send_op(&mut self, regs: &mut Regs, f: Fields, fresh: bool) -> (res: Result<(), VmError>)
        requires
            old(self).wf(),
            old(regs).ok(),
        ensures
            final(self).wf(),
            final(regs).ok(),
            crate::machine::ran(
                res,
                crate::machine::at(final(self)@, *final(regs)),
                crate::machine::at(old(self)@, *old(regs)).send_executed(f, fresh),
            ),
            res is Ok ==> final(self)@.temp_roots.len() == old(self)@.temp_roots.len(),
            final(self)@.temp_roots.len() >= old(self)@.temp_roots.len(),
    {
        reveal(Machine::send_executed);
        if !fresh {
            return self.site_op(regs, f);
        }
        self.poll_safepoint(regs);
        let due: Option<String> = match &self.snapshot_after_sends {
            None => {
                return self.site_op(regs, f);
            },
            Some((n, path)) => {
                if self.sends_seen.wrapping_add(1) == *n {
                    Some(text(path.as_str()))
                } else {
                    None
                }
            },
        };
        self.sends_seen = self.sends_seen.wrapping_add(1);
        match due {
            Some(path) => self.ask_snapshot(regs, path),
            None => self.site_op(regs, f),
        }
    }

    fn set_home(&mut self, regs: &Regs, closure: Value, nlr: bool)
        requires
            old(self).wf(),
            regs.ok(),
        ensures
            final(self).wf(),
            crate::machine::at(final(self)@, *regs) == crate::machine::at(
                old(self)@,
                *regs,
            ).homed(closure, nlr),
            final(self)@.temp_roots == old(self)@.temp_roots,
    {
        reveal(Machine::homed);
        let (p, o, s) = if !nlr {
            (self.nil(), Value::tagged(0), Value::tagged(0))
        } else {
            let flags: i64 = self.int_field(regs.stack, regs.frame + FRAME_FLAGS as u64);
            if flags & 4 != 0 {
                let encl = self.get(regs, 0);
                (
                    self.field(encl, CLOSURE_HOME_PROCESS as u64),
                    self.field(encl, CLOSURE_HOME_OFFSET as u64),
                    self.field(encl, CLOSURE_HOME_SERIAL as u64),
                )
            } else {
                (
                    self.active_process,
                    Value::tagged(regs.frame as i64),
                    Value::tagged(flags >> SERIAL_SHIFT),
                )
            }
        };
        self.set_field(closure, CLOSURE_HOME_PROCESS as u64, p);
        self.set_field(closure, CLOSURE_HOME_OFFSET as u64, o);
        self.set_field(closure, CLOSURE_HOME_SERIAL as u64, s);
    }

    fn closure_op(&mut self, regs: &mut Regs, f: Fields) -> (res: Result<(), VmError>)
        requires
            old(self).wf(),
            old(regs).ok(),
        ensures
            final(self).wf(),
            final(regs).ok(),
            crate::machine::ran(
                res,
                crate::machine::at(final(self)@, *final(regs)),
                crate::machine::at(old(self)@, *old(regs)).closure_made(f),
            ),
            res is Ok ==> final(self)@.temp_roots.len() == old(self)@.temp_roots.len(),
            final(self)@.temp_roots.len() >= old(self)@.temp_roots.len(),
    {
        reveal(Machine::closure_made);
        let block = self.field(regs.lits, f.d as u64);
        let info: i64 = self.int_field(block, BLOCK_INFO as u64);
        assert(0 <= info & 0xff <= 255) by (bit_vector);
        let captured: usize = (info & 0xff) as usize;
        let c = self.alloc_gc(regs, CLASS_BLOCKCLOSURE, FMT_FIXED, CLOSURE_CAPTURED_BASE + captured)?;
        let block1 = self.field(regs.lits, f.d as u64);
        self.set_field(c, CLOSURE_COMPILED_BLOCK as u64, block1);
        self.set_home(regs, c, (info >> BI_HAS_NLR_SHIFT) & 1 != 0);
        self.put(regs, f.a as u64, c);
        regs.closure_reg = Some(f.a);
        Ok(())
    }

    fn capture_op(&mut self, regs: &mut Regs, f: Fields) -> (res: Result<(), VmError>)
        requires
            old(self).wf(),
            old(regs).ok(),
        ensures
            final(self).wf(),
            final(regs).ok(),
            crate::machine::ran(
                res,
                crate::machine::at(final(self)@, *final(regs)),
                crate::machine::at(old(self)@, *old(regs)).captured(f),
            ),
            res is Ok ==> final(self)@.temp_roots.len() == old(self)@.temp_roots.len(),
            final(self)@.temp_roots.len() >= old(self)@.temp_roots.len(),
    {
        reveal(Machine::captured);
        match regs.closure_reg {
            None => fatal("CAPTURE without preceding MKCLOSURE"),
            Some(k) => {
                let closure = self.get(regs, k as u64);
                let v = self.get(regs, f.b as u64);
                self.store_field(closure, CLOSURE_CAPTURED_BASE as u64 + f.a as u64, v);
                Ok(())
            },
        }
    }

    fn home_alive(&self, regs: &Regs, closure: Value) -> (b: bool)
        requires
            self.wf(),
            regs.ok(),
        ensures
            b == crate::machine::at(self@, *regs).home_alive(closure),
    {
        let p = self.field(closure, CLOSURE_HOME_PROCESS as u64);
        let o = self.field(closure, CLOSURE_HOME_OFFSET as u64);
        let s = self.field(closure, CLOSURE_HOME_SERIAL as u64);
        let nil = self.nil();
        if p != self.active_process || p == nil || self.field(p, PROCESS_STACK as u64) == nil
            || !o.is_int() {
            return false;
        }
        let t: u64 = offset_from(o.as_int());
        t <= regs.frame && self.frame_has_serial(regs, t, s.as_int())
    }

    fn cannot_return(
        &mut self,
        regs: &mut Regs,
        closure: Value,
        value: Value,
    ) -> (res: Result<(), VmError>)
        requires
            old(self).wf(),
            old(regs).ok(),
        ensures
            final(self).wf(),
            final(regs).ok(),
            crate::machine::ran(
                res,
                crate::machine::at(final(self)@, *final(regs)),
                crate::machine::at(old(self)@, *old(regs)).cannot_return(closure, value),
            ),
            res is Ok ==> final(self)@.temp_roots.len() == old(self)@.temp_roots.len(),
            final(self)@.temp_roots.len() >= old(self)@.temp_roots.len(),
    {
        reveal(Machine::cannot_return);
        let sel = match self.try_intern("cannotReturn:".as_bytes()) {
            Some(s) => s,
            None => {
                return Err(VmError::OutOfMemory);
            },
        };
        let caller: i64 = self.int_field(regs.stack, regs.frame + FRAME_CALLER as u64);
        if caller == 0 {
            return fatal("NLR with dead home from a base frame");
        }
        let ri: i64 = self.int_field(regs.stack, regs.frame + FRAME_RETINFO as u64);
        proof {
            crate::frames::lemma_retinfo(ri);
        }
        self.pop_frame(regs, offset_from(caller));
        regs.pc = offset_from(ri >> RETINFO_PC_SHIFT);
        let vals = vec![closure, value];
        assert(vals@ =~= seq![closure, value]);
        self.send_staged(regs, (ri & 0xff) as u8, sel, &vals)
    }

    pub(crate) fn nlr_op(&mut self, regs: &mut Regs, f: Fields) -> (res: Result<(), VmError>)
        requires
            old(self).wf(),
            old(regs).ok(),
        ensures
            final(self).wf(),
            final(regs).ok(),
            crate::machine::ran(
                res,
                crate::machine::at(final(self)@, *final(regs)),
                crate::machine::at(old(self)@, *old(regs)).nonlocal(f),
            ),
            res is Ok ==> final(self)@.temp_roots.len() == old(self)@.temp_roots.len(),
            final(self)@.temp_roots.len() >= old(self)@.temp_roots.len(),
    {
        reveal(Machine::nonlocal);
        self.counters.nlrs = self.counters.nlrs.wrapping_add(1);
        let value = self.get(regs, f.a as u64);
        let closure = self.get(regs, 0);
        if self.home_alive(regs, closure) {
            let o = self.field(closure, CLOSURE_HOME_OFFSET as u64);
            self.unwind_and_return_from(regs, offset_from(o.as_int()), value)
        } else {
            self.cannot_return(regs, closure, value)
        }
    }

    fn compute_op(&mut self, regs: &mut Regs, f: Fields) -> (res: Result<(), VmError>)
        requires
            old(self).wf(),
            old(regs).ok(),
        ensures
            final(self).wf(),
            final(regs).ok(),
            crate::machine::ran(
                res,
                crate::machine::at(final(self)@, *final(regs)),
                crate::machine::at(old(self)@, *old(regs)).computed(f),
            ),
            res is Ok ==> final(self)@.temp_roots.len() == old(self)@.temp_roots.len(),
            final(self)@.temp_roots.len() >= old(self)@.temp_roots.len(),
    {
        reveal(Machine::computed);
        let x = self.get(regs, f.b as u64);
        let y = self.get(regs, f.c as u64);
        if x.is_int() && y.is_int() {
            if let Some(z) = int_binary(prim_of_arith(f.op), x.as_int(), y.as_int()) {
                self.put(regs, f.a as u64, Value::tagged(z));
                return Ok(());
            }
        }
        let vals = vec![x, y];
        assert(vals@ =~= seq![x, y]);
        self.spec_slow(regs, selector_of_op(f.op), f.a, &vals)
    }

    fn compare_op(&mut self, regs: &mut Regs, f: Fields) -> (res: Result<(), VmError>)
        requires
            old(self).wf(),
            old(regs).ok(),
        ensures
            final(self).wf(),
            final(regs).ok(),
            crate::machine::ran(
                res,
                crate::machine::at(final(self)@, *final(regs)),
                crate::machine::at(old(self)@, *old(regs)).compared(f),
            ),
            res is Ok ==> final(self)@.temp_roots.len() == old(self)@.temp_roots.len(),
            final(self)@.temp_roots.len() >= old(self)@.temp_roots.len(),
    {
        reveal(Machine::compared);
        let x = self.get(regs, f.b as u64);
        let y = self.get(regs, f.c as u64);
        if x.is_int() && y.is_int() {
            let t = crate::prims::compare(prim_of_compare(f.op), x.as_int(), y.as_int());
            let v = self.bool_v(t);
            self.put(regs, f.a as u64, v);
            return Ok(());
        }
        let vals = vec![x, y];
        assert(vals@ =~= seq![x, y]);
        self.spec_slow(regs, selector_of_op(f.op), f.a, &vals)
    }

    fn query_op(&mut self, regs: &mut Regs, f: Fields) -> (res: Result<(), VmError>)
        requires
            old(self).wf(),
            old(regs).ok(),
        ensures
            final(self).wf(),
            final(regs).ok(),
            crate::machine::ran(
                res,
                crate::machine::at(final(self)@, *final(regs)),
                crate::machine::at(old(self)@, *old(regs)).queried(f),
            ),
            res is Ok ==> final(self)@.temp_roots.len() == old(self)@.temp_roots.len(),
            final(self)@.temp_roots.len() >= old(self)@.temp_roots.len(),
    {
        reveal(Machine::queried);
        let a: u64 = f.a as u64;
        let x = self.get(regs, f.b as u64);
        let y = self.get(regs, f.c as u64);
        if f.op == OP_IDEQ {
            let v = self.bool_v(x == y);
            self.put(regs, a, v);
            Ok(())
        } else if f.op == OP_AT {
            if let Some(v) = self.at_value(x, y) {
                self.put(regs, a, v);
                return Ok(());
            }
            let vals = vec![x, y];
            assert(vals@ =~= seq![x, y]);
            self.spec_slow(regs, SPECSEL_AT, f.a, &vals)
        } else if f.op == OP_ATPUT {
            let z = self.get(regs, f.c as u64 + 1);
            if let Some(v) = self.at_put_value(x, y, z) {
                self.put(regs, a, v);
                return Ok(());
            }
            let vals = vec![x, y, z];
            assert(vals@ =~= seq![x, y, z]);
            self.spec_slow(regs, SPECSEL_AT_PUT, f.a, &vals)
        } else if f.op == OP_SIZE {
            if let Some(v) = self.size_value(x) {
                self.put(regs, a, v);
                return Ok(());
            }
            let vals = vec![x];
            assert(vals@ =~= seq![x]);
            self.spec_slow(regs, SPECSEL_SIZE, f.a, &vals)
        } else if f.op == OP_CLASSOF {
            let v = self.class_value(x);
            self.put(regs, a, v);
            Ok(())
        } else if x == self.true_v() {
            let v = self.false_v();
            self.put(regs, a, v);
            Ok(())
        } else if x == self.false_v() {
            let v = self.true_v();
            self.put(regs, a, v);
            Ok(())
        } else {
            let vals = vec![x];
            assert(vals@ =~= seq![x]);
            self.spec_slow(regs, SPECSEL_NOT, f.a, &vals)
        }
    }

    fn execute(&mut self, regs: &mut Regs, f: Fields, fresh: bool) -> (res: Result<(), VmError>)
        requires
            old(self).wf(),
            old(regs).ok(),
            old(regs).pc > 0,
        ensures
            final(self).wf(),
            final(regs).ok(),
            crate::machine::ran(
                res,
                crate::machine::at(final(self)@, *final(regs)),
                crate::machine::at(old(self)@, *old(regs)).executed(f, fresh),
            ),
            res is Ok ==> final(self)@.temp_roots.len() == old(self)@.temp_roots.len(),
            final(self)@.temp_roots.len() >= old(self)@.temp_roots.len(),
    {
        reveal(Machine::executed);
        if f.op <= OP_BREAK || (OP_MOVE <= f.op && f.op <= OP_LOADSELF) {
            self.move_op(regs, f)
        } else if OP_GETIVAR <= f.op && f.op <= OP_MKBOX {
            self.access_op(regs, f)
        } else if f.op == OP_JUMP {
            self.jump_op(regs, f.d as i16);
            Ok(())
        } else if f.op == OP_JUMPTRUE || f.op == OP_JUMPFALSE {
            self.branch_op(regs, f)
        } else if f.op == OP_RET {
            let v = self.get(regs, f.a as u64);
            self.do_return(regs, v)
        } else if f.op == OP_RETSELF {
            let v = self.get(regs, 0);
            self.do_return(regs, v)
        } else if f.op == OP_NLR {
            self.nlr_op(regs, f)
        } else if f.op == OP_PRIM {
            self.prim_op(regs, f.d)
        } else if f.op == OP_SEND || f.op == OP_SENDSUPER {
            self.send_op(regs, f, fresh)
        } else if f.op == OP_MKCLOSURE {
            self.closure_op(regs, f)
        } else if f.op == OP_CAPTURE {
            self.capture_op(regs, f)
        } else if OP_ADD <= f.op && f.op <= OP_MOD {
            self.compute_op(regs, f)
        } else if OP_LT <= f.op && f.op <= OP_EQNUM {
            self.compare_op(regs, f)
        } else if OP_AT <= f.op && f.op <= OP_IDEQ {
            self.query_op(regs, f)
        } else {
            fatal(illegal_message(f.op, regs.pc - 1).as_str())
        }
    }

    /// Fetch and execute one instruction.
    pub(crate) fn step(&mut self, regs: &mut Regs) -> (res: Result<(), VmError>)
        requires
            old(self).wf(),
            old(regs).ok(),
        ensures
            final(self).wf(),
            final(regs).ok(),
            crate::machine::ran(
                res,
                crate::machine::at(final(self)@, *final(regs)),
                crate::machine::at(old(self)@, *old(regs)).stepped(),
            ),
            res is Ok ==> final(self)@.temp_roots.len() == old(self)@.temp_roots.len(),
            final(self)@.temp_roots.len() >= old(self)@.temp_roots.len(),
    {
        reveal(Machine::stepped);
        let w: u32 = match self.insn(regs.code, regs.pc) {
            Some(w) => w,
            None => {
                return fatal("pc outside of the method's code");
            },
        };
        let f = split_word(w);
        let fresh = !regs.replay;
        if fresh {
            self.counters.dispatch(f.op);
        }
        regs.pc = regs.pc + 1;
        regs.replay = false;
        self.execute(regs, f, fresh)?;
        if f.op != OP_MKCLOSURE && f.op != OP_CAPTURE {
            regs.closure_reg = None;
        }
        Ok(())
    }
}

} // verus!
