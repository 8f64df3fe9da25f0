//! What compiled code asks of the machine, and where it goes on.
//!
//! Compiled code and the interpreter share the process's frames. A frame
//! that leaves compiled code continues there when its code has a place for
//! its instruction, and in the interpreter otherwise. Frames, sends,
//! primitives and non-local returns are the interpreter's own.

use crate::frames::doubled;
use crate::heap::{Heap, HeapView, MAX_CLASS_INDEX};
use crate::interp::Fields;
use crate::machine::{HostCall, Machine, Pending, Regs, OFFSET_LIMIT};
use crate::profile::SafepointShared;
use crate::requests::PrimOutcome;
use crate::treaty::{
    CLASS_STACK, FMT_FIXED, FMT_PTRS, METHOD_SEND_SITES, OP_NLR, PROCESS_FRAME_OFFSET, PROCESS_PC,
    PROCESS_STACK, SITE_ARGC, SITE_CACHE_CLASS, SITE_CACHE_METHOD, SITE_SELECTOR,
    SITE_STATIC_CLASS, SITE_STRIDE, SPECSEL_AT_PUT, SPECSEL_CLASS, SPECSEL_COUNT, SPECSEL_NOT,
    SPECSEL_SIZE,
};
use crate::value::Value;
use crate::vm::{fatal, Fault, Vm, VmError, VmView};
use vstd::prelude::*;

verus! {

impl HeapView {
    /// Allocate in old space.
    pub open spec fn attempt_old(self, class: u32, format: u64, n: int, nil: Value) -> Option<
        (HeapView, Value),
    > {
        let planned = if format == FMT_FIXED || format == FMT_PTRS {
            self.alloc_old(class, format, n, Some(nil.0), false)
        } else {
            self.alloc_old(
                class,
                crate::heap::byte_format_for(n),
                crate::heap::slots_for(n),
                None,
                false,
            )
        };
        match planned {
            None => None,
            Some((h, a)) => Some((h, Value(a as u64))),
        }
    }
}

impl VmView {
    /// Allocate for compiled code, whose state is that of its process: with
    /// collections when there is no room, and in old space at last.
    #[verifier::opaque]
    pub open spec fn native_allocated(self, class: u32, format: u64, n: int) -> Result<
        (VmView, Value),
        Fault,
    > {
        let nil = self.nil();
        match self.heap.attempt(class, format, n, nil) {
            Some((h, v)) => Ok((self.on_heap(h), v)),
            None => match self.scavenged() {
                Err(f) => Err(f),
                Ok(v1) => match v1.heap.attempt(class, format, n, nil) {
                    Some((h, v)) => Ok((v1.on_heap(h), v)),
                    None => match v1.compacted() {
                        Err(f) => Err(f),
                        Ok(v2) => match v2.heap.attempt(class, format, n, nil) {
                            Some((h, v)) => Ok((v2.on_heap(h), v)),
                            None => crate::vm::or_full(
                                v2,
                                v2.heap.attempt_old(class, format, n, nil),
                            ),
                        },
                    },
                },
            },
        }
    }

    /// A new stack object for compiled code: in young space, else in old
    /// space, compacted once when that is full.
    #[verifier::opaque]
    pub open spec fn native_stack_made(self, new: int) -> Result<(VmView, Value), Fault> {
        let nil = self.nil();
        match self.heap.attempt(CLASS_STACK, FMT_PTRS, new, nil) {
            Some((h, v)) => Ok((self.on_heap(h), v)),
            None => match self.heap.attempt_old(CLASS_STACK, FMT_PTRS, new, nil) {
                Some((h, v)) => Ok((self.on_heap(h), v)),
                None => match self.compacted() {
                    Err(f) => Err(f),
                    Ok(v1) => crate::vm::or_full(
                        v1,
                        v1.heap.attempt_old(CLASS_STACK, FMT_PTRS, new, nil),
                    ),
                },
            },
        }
    }

    /// The active process's stack doubled until it has the slots that are
    /// needed, and the new stack.
    #[verifier::opaque]
    pub open spec fn native_grown(self, needed: int) -> Result<(VmView, Value), Fault> {
        let cur = self.slots(self.field(self.active, PROCESS_STACK as int));
        let new = doubled(2 * cur, needed);
        if cur <= 0 {
            Err(Fault::Fatal("malformed stack"@, self))
        } else if 8 * new > self.max_stack_bytes {
            Err(Fault::StackOverflow(self))
        } else {
            match self.native_stack_made(new) {
                Err(f) => Err(f),
                Ok((v, s)) => {
                    let st = v.field(v.active, PROCESS_STACK as int);
                    let v1 = v.copied(st, s, 0, v.slots(st)).with_stored(
                        v.active,
                        PROCESS_STACK as int,
                        s,
                    );
                    Ok((VmView { stack_grows: v1.stack_grows.wrapping_add(1), ..v1 }, s))
                },
            }
        }
    }
}

/// Where compiled code goes on after it asked for something.
#[derive(Clone, Copy, PartialEq, Eq, Structural, Debug)]
pub enum Next {
    /// In line.
    Continue,
    /// At this address of the code cache.
    Jump(u64),
    /// In the interpreter.
    Exit,
    /// Nowhere: the base frame returned this value.
    Halt(Value),
}

/// How compiled code was left.
#[derive(Clone, Copy, PartialEq, Eq, Structural, Debug)]
pub enum Left {
    Exit,
    Halt(Value),
}

/// What compiled code reads of the machine: the active process, the bounds of
/// young space for the write barrier, and the constants.
#[derive(Clone, Copy, PartialEq, Eq, Structural, Debug)]
pub struct GlobalsPage {
    pub active_process: u64,
    pub young_base: u64,
    pub young_limit: u64,
    pub nil: u64,
    pub true_v: u64,
    pub false_v: u64,
}

/// What compiled code reads of a handle: where its code is and where its send
/// sites continue. Code 0 means that the handle is unlinked.
pub struct RuntimeHandleEntry {
    pub code: u64,
    pub retpts: Vec<u32>,
}

impl VmView {
    pub open spec fn globals(self) -> GlobalsPage {
        GlobalsPage {
            active_process: self.active.0,
            young_base: self.heap.from.base as u64,
            young_limit: self.heap.from.limit() as u64,
            nil: self.nil().0,
            true_v: self.true_v().0,
            false_v: self.false_v().0,
        }
    }
}

/// What a request of compiled code answers and leaves behind.
pub open spec fn came(
    r: Result<Next, VmError>,
    after: Machine,
    planned: Result<(Machine, Next), Fault>,
) -> bool {
    match planned {
        Ok((m, n)) => r == Ok::<Next, VmError>(n) && after == m,
        Err(f) => r is Err && r->Err_0.tells(f, after.vm),
    }
}

impl Machine {
    /// The machine as the active process's saved state gives it, at an
    /// instruction.
    pub open spec fn taken_up(self, pc: u64) -> Machine {
        Machine { vm: self.vm, regs: Regs { pc, ..self.vm.loaded() } }
    }

    /// Where the current frame goes on. What waits for the scheduler or the
    /// host is the interpreter's.
    #[verifier::opaque]
    pub open spec fn continued(self) -> (Machine, Next) {
        match self.regs.halted {
            Some(v) => (
                Machine { regs: Regs { halted: None, ..self.regs }, ..self },
                Next::Halt(v),
            ),
            None => {
                let m = self.on(self.vm.saved(self.regs));
                (
                    m,
                    if m.regs.pending != Pending::Nothing {
                        Next::Exit
                    } else {
                        match m.resume_addr() {
                            Some(a) => Next::Jump(a),
                            None => Next::Exit,
                        }
                    },
                )
            },
        }
    }

    pub open spec fn then_continued(planned: Result<Machine, Fault>) -> Result<
        (Machine, Next),
        Fault,
    > {
        match planned {
            Ok(m) => Ok(m.continued()),
            Err(f) => Err(f),
        }
    }

    /// The class above which the send of a site searches.
    pub open spec fn site_above(self, base: int) -> Option<Value> {
        let c = self.vm.field(self.regs.sites, base + SITE_STATIC_CLASS);
        if c.tagged_ptr() && c != self.vm.nil() {
            Some(c)
        } else {
            None
        }
    }

    /// The compiled send site made to agree with the send site's cache.
    #[verifier::opaque]
    pub open spec fn site_agreed(self, caller: Value, site: u8) -> Machine {
        let base = site * SITE_STRIDE;
        let sites = self.vm.field(caller, METHOD_SEND_SITES as int);
        let class = self.vm.field(sites, base + SITE_CACHE_CLASS);
        let method = self.vm.field(sites, base + SITE_CACHE_METHOD);
        if sites.tagged_ptr() && sites != self.vm.nil() && class.tagged_int()
            && class.int_value() != 0 && method.tagged_ptr() && method != self.vm.nil() {
            self.on(
                self.vm.send_site_patched(caller, site, class.int_value() as u32, method),
            )
        } else {
            self
        }
    }

    /// The whole send of a site whose compiled inline cache missed.
    #[verifier::opaque]
    pub open spec fn send_missed(self, site: u8, r: u8, dest: u8, pc: u64) -> Result<
        (Machine, Next),
        Fault,
    > {
        let m0 = self.taken_up(pc);
        let base = site * SITE_STRIDE;
        let argc = m0.vm.int_field(m0.regs.sites, base + SITE_ARGC);
        if !(0 <= argc <= 250) {
            Err(Fault::Fatal("malformed send site"@, m0.vm))
        } else {
            let m1 = m0.on(
                VmView { temp_roots: m0.vm.temp_roots.push(m0.regs.method), ..m0.vm },
            );
            match m1.sent(
                dest,
                r,
                m1.vm.field(m1.regs.sites, base + SITE_SELECTOR),
                argc as int,
                Some(base),
                m1.site_above(base),
            ) {
                Err(f) => Err(
                    f.followed(
                        |v: VmView| VmView { temp_roots: v.temp_roots.drop_last(), ..v },
                    ),
                ),
                Ok(m2) => {
                    let caller = m2.vm.temp_roots.last();
                    let m3 = m2.on(VmView { temp_roots: m2.vm.temp_roots.drop_last(), ..m2.vm });
                    Ok(m3.site_agreed(caller, site).continued())
                },
            }
        }
    }

    /// The primitive of the current frame's method. A failure goes on in
    /// line, in the compiled body.
    #[verifier::opaque]
    pub open spec fn prim_called(self) -> Result<(Machine, Next), Fault> {
        let m0 = self.taken_up(1);
        let method = m0.regs.method;
        let bits = m0.vm.method_bits(method);
        let argc = crate::vm::mh_argc(bits);
        match crate::vm::mh_primitive(bits) {
            None => Err(Fault::Fatal("PRIM_CALL on method without primitive"@, m0.vm)),
            Some(n) => match m0.primitive(n, 0, argc, 0) {
                Err(f) => Err(f),
                Ok((m1, o)) => {
                    let call = HostCall {
                        prim: n,
                        method,
                        r: 0,
                        dest: 0,
                        argc: argc as u64,
                        inline: true,
                    };
                    match m1.inline_applied(call, o) {
                        Err(f) => Err(f),
                        Ok(m2) => if o is Fail {
                            Ok((m2, Next::Continue))
                        } else {
                            Ok(m2.continued())
                        },
                    }
                },
            },
        }
    }

    /// The slow path of a specialized send.
    #[verifier::opaque]
    pub open spec fn slow_sent(self, which: int, dest: u8, slots: Seq<u8>, pc: u64) -> Result<
        (Machine, Next),
        Fault,
    > {
        let m = self.taken_up(pc);
        let vals = Seq::new(
            operands(which) as nat,
            |i: int| m.get(slots[i] as int),
        );
        Machine::then_continued(m.specialized_sent(which, dest, vals))
    }

    /// A non-local return out of the value in slot `a`.
    #[verifier::opaque]
    pub open spec fn left_nonlocally(self, a: u8, pc: u64) -> Result<(Machine, Next), Fault> {
        Machine::then_continued(self.taken_up(pc).nonlocal(nonlocal_fields(a)))
    }

    /// A return into a frame at an instruction without a return point.
    #[verifier::opaque]
    pub open spec fn resumed_at(self, pc: u64) -> (Machine, Next) {
        let v = self.vm.with_field(
            self.vm.active,
            PROCESS_PC as int,
            crate::value::tag(pc as i64),
        );
        let m = Machine { vm: v, regs: v.loaded() };
        (
            m,
            match m.resume_addr() {
                Some(a) => Next::Jump(a),
                None => Next::Exit,
            },
        )
    }

    /// A sample of compiled code taken when one is due, or when every poll
    /// is to be sampled.
    #[verifier::opaque]
    pub open spec fn native_sampled(self) -> Machine {
        let due = (self.vm.safepoint.sample_due || self.vm.prof.every_poll) && self.vm.prof.active;
        let v = VmView {
            safepoint: SafepointShared { sample_due: false, ..self.vm.safepoint },
            ..self.vm
        };
        if due {
            let w = VmView {
                ctr: crate::counters::CountersView {
                    jit_samples_native: v.ctr.jit_samples_native.wrapping_add(1),
                    ..v.ctr
                },
                ..v
            };
            if w.field(w.active, PROCESS_STACK as int).tagged_ptr() && w.field(
                w.active,
                PROCESS_FRAME_OFFSET as int,
            ).tagged_int() {
                self.on(w.sample_taken(self.regs.stack, self.regs.frame as int, None))
            } else {
                self.on(w)
            }
        } else {
            self.on(v)
        }
    }

    /// Due timers fired; the flag stays up while timers are pending or every
    /// poll is to be sampled.
    #[verifier::opaque]
    pub open spec fn native_rearmed(self) -> Machine {
        let v = self.vm.timers_served();
        self.on(
            VmView {
                safepoint: SafepointShared {
                    armed: v.timer_times.len() > 0 || (v.prof.active && v.prof.every_poll),
                    ..v.safepoint
                },
                ..v
            },
        )
    }

    /// The process that takes over from the running one, if one does.
    pub open spec fn taker(self) -> Option<Value> {
        let cur = self.vm.active;
        if self.vm.ceiling() matches Some(hp) && hp > self.vm.priority(cur) {
            self.vm.made_runnable(cur).next_runnable().1
        } else {
            None
        }
    }

    /// A safepoint at an instruction; another process may be running after
    /// it.
    #[verifier::opaque]
    pub open spec fn polled_at(self, pc: u64) -> (Machine, Next) {
        let m0 = self.taken_up(pc);
        let m = m0.on(m0.vm.saved(m0.regs)).native_sampled().native_rearmed();
        (
            m.preempted(),
            if m.taker() is Some {
                Next::Exit
            } else {
                Next::Continue
            },
        )
    }

    /// Compiled code entered.
    #[verifier::opaque]
    pub open spec fn native_entered(self) -> Machine {
        let v = self.vm.saved(self.regs);
        self.on(
            VmView {
                ctr: crate::counters::CountersView {
                    jit_enters: v.ctr.jit_enters.wrapping_add(1),
                    ..v.ctr
                },
                jit: match v.jit {
                    Some(j) => Some(crate::jit::JitView { in_native: true, ..j }),
                    None => None,
                },
                ..v
            },
        )
    }

    /// Compiled code left: the address at which to enter it again, if it is
    /// to be. A frame that is where it was when its code was entered asks
    /// for the interpreter; entering its code again would not get on.
    #[verifier::opaque]
    pub open spec fn native_left(self, left: Left, process: Value, frame: u64, pc: u64) -> (
        Machine,
        Option<u64>,
    ) {
        let v = VmView {
            ctr: crate::counters::CountersView {
                jit_exits: self.vm.ctr.jit_exits.wrapping_add(1),
                ..self.vm.ctr
            },
            jit: match self.vm.jit {
                Some(j) => Some(crate::jit::JitView { in_native: false, ..j }),
                None => None,
            },
            ..self.vm
        };
        match left {
            Left::Halt(x) => (
                Machine { vm: v, regs: Regs { halted: Some(x), ..self.regs } },
                None,
            ),
            Left::Exit => {
                let m = Machine { vm: v, regs: v.loaded() };
                (
                    m,
                    if v.active == process && m.regs.frame == frame && m.regs.pc == pc {
                        None
                    } else {
                        m.entry_addr()
                    },
                )
            },
        }
    }
}

/// How many operands a specialized selector takes.
pub open spec fn operands(which: int) -> int {
    if which == SPECSEL_AT_PUT {
        3
    } else if which == SPECSEL_SIZE || which == SPECSEL_CLASS || which == SPECSEL_NOT {
        1
    } else {
        2
    }
}

/// The instruction that a non-local return stands for.
pub open spec fn nonlocal_fields(a: u8) -> Fields {
    Fields { op: OP_NLR, a, b: 0, c: 0, d: 0 }
}

impl Heap {
    /// One attempt to allocate in old space.
    fn attempt_old(&mut self, class: u32, format: u64, n: usize, nil: Value) -> (r: Option<Value>)
        requires
            old(self).wf(),
            class <= MAX_CLASS_INDEX,
        ensures
            final(self).wf(),
            final(self)@.layout() == old(self)@.layout(),
            match old(self)@.attempt_old(class, format, n as int, nil) {
                None => r is None && final(self)@ == old(self)@,
                Some((h, v)) => r == Some(v) && final(self)@ == h,
            },
    {
        let words = format == FMT_FIXED || format == FMT_PTRS;
        let (nslots, fmt) = if words {
            (n, format)
        } else {
            crate::heap::byte_shape(n)
        };
        let fill: Option<u64> = if words {
            Some(nil.0)
        } else {
            None
        };
        proof {
            if self@.old.fits(crate::heap::words_for(nslots as int)) {
                crate::objects::law_alloc_old(self@, class, fmt, nslots as int, fill, false);
            }
        }
        match self.alloc_in_old(class, fmt, nslots, fill, false) {
            Some(a) => Some(Value::from_ptr(a)),
            None => None,
        }
    }
}

impl Vm {
    /// What compiled code reads of the machine, as it is now; `None` when no
    /// code has been prepared for.
    pub fn jit_sync_globals(&self) -> (g: Option<GlobalsPage>)
        requires
            self.wf(),
        ensures
            g == (match self@.jit {
                Some(_) => Some(self@.globals()),
                None => None,
            }),
    {
        match &self.jit {
            None => None,
            Some(_) => Some(
                GlobalsPage {
                    active_process: self.active_process.0,
                    young_base: self.heap.young_from.base() as u64,
                    young_limit: self.heap.young_from.limit() as u64,
                    nil: self.nil().0,
                    true_v: self.true_v().0,
                    false_v: self.false_v().0,
                },
            ),
        }
    }

    /// What compiled code reads of a handle; `None` when there is none.
    pub fn jit_runtime_entry(&self, i: usize) -> (e: Option<RuntimeHandleEntry>)
        requires
            self.wf(),
        ensures
            e is Some == (self@.jit is Some && i < self@.jit->0.handles.len()),
            e matches Some(x) ==> {
                let j = self@.jit->0;
                let h = j.handles[i as int];
                &&& x.code == (if h.live {
                    j.addr(h.code_off)
                } else {
                    0
                })
                &&& x.retpts@ == (if h.live {
                    h.retpts
                } else {
                    Seq::empty()
                })
            },
    {
        match &self.jit {
            None => None,
            Some(j) => {
                if i >= j.handles.len() {
                    return None;
                }
                let h = &j.handles[i];
                if h.live {
                    proof {
                        reveal(crate::jit::handles_ok);
                        assert(j@.handles[i as int].ok(j@.code.len() as int));
                    }
                    let mut retpts: Vec<u32> = Vec::new();
                    let mut k: usize = 0;
                    while k < h.retpts.len()
                        invariant
                            k <= h.retpts@.len(),
                            retpts@ == h.retpts@.take(k as int),
                        decreases h.retpts@.len() - k,
                    {
                        retpts.push(h.retpts[k]);
                        k = k + 1;
                        assert(retpts@ =~= h.retpts@.take(k as int));
                    }
                    assert(retpts@ =~= h.retpts@);
                    Some(RuntimeHandleEntry { code: (j.cache.base + h.code_off) as u64, retpts })
                } else {
                    Some(RuntimeHandleEntry { code: 0, retpts: Vec::new() })
                }
            },
        }
    }

    fn take_up(&self, pc: u64) -> (regs: Regs)
        requires
            self.wf(),
            pc < OFFSET_LIMIT,
        ensures
            regs.ok(),
            forall|m: Machine| m.vm == self@ ==> #[trigger] m.taken_up(pc)
                == crate::machine::at(self@, regs),
    {
        let mut regs = self.load_regs();
        regs.pc = pc;
        regs
    }

    fn resume_addr_of(&self, regs: &Regs) -> (r: Option<u64>)
        requires
            self.wf(),
            regs.ok(),
        ensures
            r == crate::machine::at(self@, *regs).resume_addr(),
    {
        let h = self.jit_handle_of(regs.method);
        match (&self.jit, h) {
            (Some(j), Some(i)) => {
                if self.frame_is_unwind_cont(regs) {
                    return None;
                }
                match j.reentry_off(i, regs.pc) {
                    None => None,
                    Some(off) => {
                        proof {
                            crate::jit::lemma_resume_in_bounds(j@, i as int, regs.pc);
                        }
                        Some((j.cache.base + j.handles[i].code_off + off as usize) as u64)
                    },
                }
            },
            _ => None,
        }
    }

    fn go_on(&mut self, regs: &mut Regs) -> (n: Next)
        requires
            old(self).wf(),
            old(regs).ok(),
        ensures
            final(self).wf(),
            final(regs).ok(),
            (crate::machine::at(final(self)@, *final(regs)), n) == crate::machine::at(
                old(self)@,
                *old(regs),
            ).continued(),
            final(self)@.temp_roots == old(self)@.temp_roots,
    {
        reveal(Machine::continued);
        if let Some(v) = regs.halted {
            regs.halted = None;
            return Next::Halt(v);
        }
        self.save_regs(regs);
        if let Pending::Nothing = regs.pending {
            match self.resume_addr_of(regs) {
                Some(a) => Next::Jump(a),
                None => Next::Exit,
            }
        } else {
            Next::Exit
        }
    }

    fn agree_site(&mut self, caller: Value, site: u8)
        requires
            old(self).wf(),
        ensures
            final(self).wf(),
            forall|r: Regs| #[trigger]
                crate::machine::at(final(self)@, r) == crate::machine::at(
                    old(self)@,
                    r,
                ).site_agreed(caller, site),
    {
        reveal(Machine::site_agreed);
        let base: u64 = site as u64 * SITE_STRIDE as u64;
        let sites = self.field(caller, METHOD_SEND_SITES as u64);
        if !(sites.is_ptr() && sites != self.nil()) {
            return;
        }
        let class = self.field(sites, base + SITE_CACHE_CLASS as u64);
        let method = self.field(sites, base + SITE_CACHE_METHOD as u64);
        if class.is_int() && class.as_int() != 0 && method.is_ptr() && method != self.nil() {
            self.jit_patch_send_site(caller, site, class.as_int() as u32, method);
        }
    }

    /// A compiled inline cache missed: make the whole send, and let the
    /// compiled site agree with what it found.
    #[verifier::spinoff_prover]
    #[verifier::rlimit(60)]
    pub fn jit_send_miss(&mut self, regs: &mut Regs, site: u8, r: u8, dest: u8, pc: u64) -> (res:
        Result<Next, VmError>)
        requires
            old(self).wf(),
            pc < OFFSET_LIMIT,
        ensures
            final(self).wf(),
            came(
                res,
                crate::machine::at(final(self)@, *final(regs)),
                crate::machine::at(old(self)@, *old(regs)).send_missed(site, r, dest, pc),
            ),
    {
        reveal(Machine::send_missed);
        let ghost before = crate::machine::at(self@, *regs);
        *regs = self.take_up(pc);
        assert(before.taken_up(pc) == crate::machine::at(self@, *regs));
        let base: u64 = site as u64 * SITE_STRIDE as u64;
        let argc: i64 = self.int_field(regs.sites, base + SITE_ARGC as u64);
        if argc < 0 || argc > 250 {
            return fatal("malformed send site");
        }
        self.temp_roots.push(regs.method);
        let ghost m1 = crate::machine::at(self@, *regs);
        let selector = self.field(regs.sites, base + SITE_SELECTOR as u64);
        let c = self.field(regs.sites, base + SITE_STATIC_CLASS as u64);
        let above = if c.is_ptr() && c != self.nil() {
            Some(c)
        } else {
            None
        };
        match self.do_send(regs, dest, r, selector, argc as u64, Some(base), above) {
            Ok(_) => {},
            Err(e) => {
                let ghost v = self@;
                self.temp_roots.pop();
                assert(self@ == VmView { temp_roots: v.temp_roots.drop_last(), ..v });
                return Err(e);
            },
        }
        let ghost m2 = crate::machine::at(self@, *regs);
        let caller = match self.temp_roots.pop() {
            Some(v) => v,
            None => Value(0),
        };
        let ghost m3 = m2.on(VmView { temp_roots: m2.vm.temp_roots.drop_last(), ..m2.vm });
        assert(crate::machine::at(self@, *regs) == m3);
        self.agree_site(caller, site);
        assert(crate::machine::at(self@, *regs) == m3.site_agreed(caller, site));
        Ok(self.go_on(regs))
    }

    /// Run the primitive of the current frame's method.
    pub fn jit_prim_call(&mut self, regs: &mut Regs) -> (res: Result<Next, VmError>)
        requires
            old(self).wf(),
        ensures
            final(self).wf(),
            came(
                res,
                crate::machine::at(final(self)@, *final(regs)),
                crate::machine::at(old(self)@, *old(regs)).prim_called(),
            ),
    {
        reveal(Machine::prim_called);
        let ghost before = crate::machine::at(self@, *regs);
        *regs = self.take_up(1);
        assert(before.taken_up(1) == crate::machine::at(self@, *regs));
        let method = regs.method;
        let n: u16 = match self.primitive_of(method) {
            Some(n) => n,
            None => {
                return fatal("PRIM_CALL on method without primitive");
            },
        };
        let argc: u64 = self.argc_of(method);
        let outcome = self.run_primitive(regs, n, 0, argc, 0)?;
        let call = HostCall { prim: n, method, r: 0, dest: 0, argc, inline: true };
        let failed = match &outcome {
            PrimOutcome::Fail(_) => true,
            _ => false,
        };
        self.apply_inline(regs, call, outcome)?;
        if failed {
            return Ok(Next::Continue);
        }
        Ok(self.go_on(regs))
    }

    /// Make the ordinary send that a specialized one falls back to.
    pub fn jit_send_slow(
        &mut self,
        regs: &mut Regs,
        which: usize,
        dest: u8,
        slots: [u8; 3],
        pc: u64,
    ) -> (res: Result<Next, VmError>)
        requires
            old(self).wf(),
            which < SPECSEL_COUNT,
            pc < OFFSET_LIMIT,
        ensures
            final(self).wf(),
            came(
                res,
                crate::machine::at(final(self)@, *final(regs)),
                crate::machine::at(old(self)@, *old(regs)).slow_sent(
                    which as int,
                    dest,
                    slots@,
                    pc,
                ),
            ),
    {
        reveal(Machine::slow_sent);
        let ghost before = crate::machine::at(self@, *regs);
        *regs = self.take_up(pc);
        let ghost m = crate::machine::at(self@, *regs);
        assert(before.taken_up(pc) == m);
        let n: usize = if which == SPECSEL_AT_PUT {
            3
        } else if which == SPECSEL_SIZE || which == SPECSEL_CLASS || which == SPECSEL_NOT {
            1
        } else {
            2
        };
        let mut vals: Vec<Value> = Vec::new();
        let mut i: usize = 0;
        while i < n
            invariant
                i <= n <= 3,
                self.wf(),
                regs.ok(),
                m == crate::machine::at(self@, *regs),
                vals@ == Seq::new(i as nat, |k: int| m.get(slots@[k] as int)),
            decreases n - i,
        {
            let v = self.get(regs, slots[i] as u64);
            vals.push(v);
            i = i + 1;
            assert(vals@ =~= Seq::new(i as nat, |k: int| m.get(slots@[k] as int)));
        }
        assert(vals@ =~= Seq::new(operands(which as int) as nat, |k: int| m.get(slots@[k] as int)));
        self.spec_slow(regs, which, dest, &vals)?;
        Ok(self.go_on(regs))
    }

    /// Return out of the home frame of the running block.
    pub fn jit_nlr(&mut self, regs: &mut Regs, a: u8, pc: u64) -> (res: Result<Next, VmError>)
        requires
            old(self).wf(),
            pc < OFFSET_LIMIT,
        ensures
            final(self).wf(),
            came(
                res,
                crate::machine::at(final(self)@, *final(regs)),
                crate::machine::at(old(self)@, *old(regs)).left_nonlocally(a, pc),
            ),
    {
        reveal(Machine::left_nonlocally);
        let ghost before = crate::machine::at(self@, *regs);
        *regs = self.take_up(pc);
        assert(before.taken_up(pc) == crate::machine::at(self@, *regs));
        let f = Fields { op: OP_NLR, a, b: 0, c: 0, d: 0 };
        self.nlr_op(regs, f)?;
        Ok(self.go_on(regs))
    }

    /// Allocate for compiled code. Its frame state is in the process.
    #[verifier::spinoff_prover]
    #[verifier::rlimit(60)]
    pub fn jit_alloc(&mut self, class: u32, format: u64, n: usize) -> (r: Result<Value, VmError>)
        requires
            old(self).wf(),
            class <= MAX_CLASS_INDEX,
        ensures
            final(self).wf(),
            crate::gc::outcome(r, final(self)@, old(self)@.native_allocated(class, format, n as int)),
    {
        reveal(VmView::native_allocated);
        let nil = self.nil();
        if let Some(v) = self.heap.attempt(class, format, n, nil) {
            return Ok(v);
        }
        self.collect_young()?;
        if let Some(v) = self.heap.attempt(class, format, n, nil) {
            return Ok(v);
        }
        self.collect_old()?;
        if let Some(v) = self.heap.attempt(class, format, n, nil) {
            return Ok(v);
        }
        match self.heap.attempt_old(class, format, n, nil) {
            Some(v) => Ok(v),
            None => Err(VmError::OutOfMemory),
        }
    }

    fn native_stack(&mut self, n: usize) -> (r: Result<Value, VmError>)
        requires
            old(self).wf(),
        ensures
            final(self).wf(),
            crate::gc::outcome(r, final(self)@, old(self)@.native_stack_made(n as int)),
    {
        reveal(VmView::native_stack_made);
        let nil = self.nil();
        if let Some(v) = self.heap.attempt(CLASS_STACK, FMT_PTRS, n, nil) {
            return Ok(v);
        }
        if let Some(v) = self.heap.attempt_old(CLASS_STACK, FMT_PTRS, n, nil) {
            return Ok(v);
        }
        self.collect_old()?;
        match self.heap.attempt_old(CLASS_STACK, FMT_PTRS, n, nil) {
            Some(v) => Ok(v),
            None => Err(VmError::OutOfMemory),
        }
    }

    /// Grow the active process's stack for compiled code; the new stack.
    pub fn jit_grow_stack(&mut self, needed: usize) -> (r: Result<Value, VmError>)
        requires
            old(self).wf(),
        ensures
            final(self).wf(),
            crate::gc::outcome(r, final(self)@, old(self)@.native_grown(needed as int)),
    {
        reveal(VmView::native_grown);
        let cur: u64 = self.slots(self.field(self.active_process, PROCESS_STACK as u64));
        if cur == 0 {
            return fatal("malformed stack");
        }
        let new: usize = match crate::frames::grown_size(cur, needed as u64, self.max_stack_bytes) {
            Some(n) => n,
            None => {
                return Err(VmError::StackOverflow);
            },
        };
        let s = self.native_stack(new)?;
        let ghost v = self@;
        let process = self.active_process;
        let stack = self.field(process, PROCESS_STACK as u64);
        let n: u64 = self.slots(stack);
        self.copy_slots(stack, s, n);
        proof {
            crate::frames::lemma_copied_frame(v, stack, s, 0, n as int);
        }
        self.store_field(process, PROCESS_STACK as u64, s);
        self.stack_grow_count = self.stack_grow_count.wrapping_add(1);
        Ok(s)
    }

    /// Note that an old object gets its first young reference since the last
    /// scavenge.
    pub fn jit_remember(&mut self, obj: Value)
        requires
            old(self).wf(),
            old(self)@.heap.plausible(obj.addr()),
        ensures
            final(self).wf(),
            final(self)@ == old(self)@.on_heap(old(self)@.heap.remembered(obj.addr())),
    {
        self.heap.remember(obj);
    }

    /// Return into a frame at an instruction without a return point.
    pub fn jit_resume_at(&mut self, regs: &mut Regs, pc: u64) -> (n: Next)
        requires
            old(self).wf(),
            pc < OFFSET_LIMIT,
        ensures
            final(self).wf(),
            (crate::machine::at(final(self)@, *final(regs)), n) == crate::machine::at(
                old(self)@,
                *old(regs),
            ).resumed_at(pc),
    {
        reveal(Machine::resumed_at);
        self.set_field(self.active_process, PROCESS_PC as u64, Value::tagged(pc as i64));
        *regs = self.load_regs();
        match self.resume_addr_of(regs) {
            Some(a) => Next::Jump(a),
            None => Next::Exit,
        }
    }

    fn sample_native(&mut self, regs: &mut Regs)
        requires
            old(self).wf(),
            old(regs).ok(),
        ensures
            final(self).wf(),
            final(regs).ok(),
            crate::machine::at(final(self)@, *final(regs)) == crate::machine::at(
                old(self)@,
                *old(regs),
            ).native_sampled(),
    {
        reveal(Machine::native_sampled);
        let due = (self.safepoint.sample_due || self.profiler.sample_every_poll)
            && self.profiler.active;
        self.safepoint = SafepointShared { armed: self.safepoint.armed, sample_due: false };
        if due {
            self.counters.jit_samples_native = self.counters.jit_samples_native.wrapping_add(1);
            let stack = self.field(self.active_process, PROCESS_STACK as u64);
            let off = self.field(self.active_process, PROCESS_FRAME_OFFSET as u64);
            if stack.is_ptr() && off.is_int() {
                self.take_sample(regs.stack, regs.frame, None);
            }
        }
    }

    fn rearm_native(&mut self, regs: &mut Regs)
        requires
            old(self).wf(),
            old(regs).ok(),
        ensures
            final(self).wf(),
            final(regs).ok(),
            crate::machine::at(final(self)@, *final(regs)) == crate::machine::at(
                old(self)@,
                *old(regs),
            ).native_rearmed(),
    {
        reveal(Machine::native_rearmed);
        self.service_timers();
        self.safepoint = SafepointShared {
            armed: self.timer_times.len() > 0 || (self.profiler.active
                && self.profiler.sample_every_poll),
            sample_due: self.safepoint.sample_due,
        };
    }

    /// Serve a safepoint of compiled code at an instruction.
    pub fn jit_safepoint(&mut self, regs: &mut Regs, pc: u64) -> (n: Next)
        requires
            old(self).wf(),
            pc < OFFSET_LIMIT,
        ensures
            final(self).wf(),
            (crate::machine::at(final(self)@, *final(regs)), n) == crate::machine::at(
                old(self)@,
                *old(regs),
            ).polled_at(pc),
    {
        reveal(Machine::polled_at);
        let ghost before = crate::machine::at(self@, *regs);
        *regs = self.take_up(pc);
        assert(before.taken_up(pc) == crate::machine::at(self@, *regs));
        self.save_regs(regs);
        self.sample_native(regs);
        self.rearm_native(regs);
        let ghost m = crate::machine::at(self@, *regs);
        reveal(Machine::preempted);
        let cur = self.active_process;
        let prio: i64 = self.process_priority(cur);
        if let Some(hp) = self.runnable_priority_ceiling() {
            if hp > prio {
                self.make_runnable(cur);
                if let Some(next) = self.take_next_runnable() {
                    self.transfer_to(regs, next);
                    assert(m.taker() is Some);
                    return Next::Exit;
                }
            }
        }
        assert(m.taker() is None);
        Next::Continue
    }

    /// Note that compiled code is entered for the current frame.
    pub fn native_entered(&mut self, regs: &Regs)
        requires
            old(self).wf(),
            regs.ok(),
        ensures
            final(self).wf(),
            crate::machine::at(final(self)@, *regs) == crate::machine::at(
                old(self)@,
                *regs,
            ).native_entered(),
    {
        reveal(Machine::native_entered);
        self.save_regs(regs);
        self.counters.jit_enters = self.counters.jit_enters.wrapping_add(1);
        match &mut self.jit {
            Some(j) => {
                j.in_native = true;
            },
            None => {},
        }
    }

    /// Note that compiled code was left, and tell where to enter it again,
    /// if it is to be; it had been entered for the given process, frame and
    /// instruction.
    pub fn native_left(&mut self, regs: &mut Regs, left: Left, process: Value, frame: u64, pc: u64) -> (
        r: Option<u64>)
        requires
            old(self).wf(),
            old(regs).ok(),
        ensures
            final(self).wf(),
            final(regs).ok(),
            (crate::machine::at(final(self)@, *final(regs)), r) == crate::machine::at(
                old(self)@,
                *old(regs),
            ).native_left(left, process, frame, pc),
    {
        reveal(Machine::native_left);
        self.counters.jit_exits = self.counters.jit_exits.wrapping_add(1);
        match &mut self.jit {
            Some(j) => {
                j.in_native = false;
            },
            None => {},
        }
        match left {
            Left::Halt(v) => {
                regs.halted = Some(v);
                None
            },
            Left::Exit => {
                *regs = self.load_regs();
                if self.active_process == process && regs.frame == frame && regs.pc == pc {
                    None
                } else {
                    self.native_resume_addr(regs)
                }
            },
        }
    }
}

} // verus!
