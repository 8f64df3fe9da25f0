//! Allocation with collection, and making processes.

use crate::heap::{HeapView, MAX_CLASS_INDEX};
use crate::value::Value;
use crate::vm::{fatal, Fault, Vm, VmError, VmView};
use crate::treaty::{
    CLASS_PROCESS, CLASS_STACK, FMT_FIXED, FMT_PTRS, FRAME_CALLER, FRAME_FLAGS, FRAME_METHOD,
    FRAME_RECEIVER, FRAME_RETINFO, METHOD_HEADER, PROCESS_FRAME_OFFSET, PROCESS_NUM_VM_SLOTS,
    PROCESS_PC, PROCESS_PRIORITY, PROCESS_SERIAL_COUNTER, PROCESS_STACK, STACK_FRAMES_BASE,
    STACK_OWNER,
};
use vstd::prelude::*;

verus! {

impl VmView {
    /// Allocate, collecting the young generation when there is no room, and
    /// old space when there is still none.
    #[verifier::opaque]
    pub open spec fn allocated(self, class: u32, format: u64, n: int) -> Result<
        (VmView, Value),
        Fault,
    > {
        match self.heap.attempt(class, format, n, self.nil()) {
            Some((h, v)) => Ok((self.on_heap(h), v)),
            None => match self.scavenged() {
                Err(f) => Err(f),
                Ok(v1) => match v1.heap.attempt(class, format, n, self.nil()) {
                    Some((h, v)) => Ok((v1.on_heap(h), v)),
                    None => match v1.compacted() {
                        Err(f) => Err(f),
                        Ok(v2) => crate::vm::or_full(
                            v2,
                            v2.heap.attempt(class, format, n, self.nil()),
                        ),
                    },
                },
            },
        }
    }
}

impl HeapView {
    /// Arguments `args[i..]` stored in a frame, from the slot after the
    /// receiver on.
    pub open spec fn push_args(self, stack: int, at: int, args: Seq<Value>, i: int) -> HeapView
        decreases args.len() - i,
    {
        if i < 0 || i >= args.len() {
            self
        } else {
            self.store(stack, at + i, args[i]).push_args(stack, at, args, i + 1)
        }
    }

    /// A process poised to run a method from its start on a new stack.
    #[verifier::opaque]
    pub open spec fn poised(
        self,
        process: Value,
        stack: Value,
        method: Value,
        receiver: Value,
        args: Seq<Value>,
    ) -> HeapView {
        let p = process.addr();
        let s = stack.addr();
        let f = STACK_FRAMES_BASE as int;
        self.store(s, STACK_OWNER as int, process).store(p, PROCESS_STACK as int, stack).set_slot(
            p,
            PROCESS_FRAME_OFFSET as int,
            crate::value::tag(STACK_FRAMES_BASE as i64),
        ).set_slot(p, PROCESS_PC as int, crate::value::tag(0)).set_slot(
            p,
            PROCESS_PRIORITY as int,
            crate::value::tag(4),
        ).set_slot(p, PROCESS_SERIAL_COUNTER as int, crate::value::tag(1)).set_slot(
            s,
            f + FRAME_CALLER,
            crate::value::tag(0),
        ).set_slot(s, f + FRAME_RETINFO, crate::value::tag(0)).store(
            s,
            f + FRAME_METHOD,
            method,
        ).set_slot(s, f + FRAME_FLAGS, crate::value::tag(FIRST_SERIAL)).store(
            s,
            f + FRAME_RECEIVER,
            receiver,
        ).push_args(s, f + FRAME_RECEIVER + 1, args, 0)
    }
}

/// The flags word of a process's first frame: serial one, no flags.
pub const FIRST_SERIAL: i64 = 0x1_0000_0000;

/// Slots of a new stack.
pub const INITIAL_STACK_SLOTS: usize = 512;

impl VmView {
    /// The machine with a new process that will run a method on a receiver
    /// and arguments, and the process.
    pub open spec fn spawned(self, method: Value, receiver: Value, args: Seq<Value>) -> Result<
        (VmView, Value),
        Fault,
    > {
        let base = self.temp_roots.len() as int;
        let v0 = VmView {
            temp_roots: self.temp_roots.push(method).push(receiver) + args,
            ..self
        };
        match v0.allocated(CLASS_PROCESS, FMT_FIXED, PROCESS_NUM_VM_SLOTS as int) {
            Err(f) => Err(f),
            Ok((v1, p)) => {
                let v2 = VmView { temp_roots: v1.temp_roots.push(p), ..v1 };
                match v2.allocated(CLASS_STACK, FMT_PTRS, INITIAL_STACK_SLOTS as int) {
                    Err(f) => Err(f),
                    Ok((v3, stack)) => {
                        let process = v3.temp_roots.last();
                        let rooted = v3.temp_roots.subrange(base, v3.temp_roots.len() - 1);
                        if !v3.heap.shaped(process.addr(), PROCESS_NUM_VM_SLOTS as int) {
                            Err(Fault::Fatal("spawn: malformed process"@, v3))
                        } else {
                            Ok(
                                (
                                    VmView {
                                        temp_roots: v3.temp_roots.subrange(0, base),
                                        heap: v3.heap.poised(
                                            process,
                                            stack,
                                            rooted[0],
                                            rooted[1],
                                            rooted.subrange(2, rooted.len() as int),
                                        ),
                                        ..v3
                                    },
                                    process,
                                ),
                            )
                        }
                    },
                }
            },
        }
    }
}

impl crate::heap::Heap {
    fn push_args(&mut self, stack: Value, at: usize, args: &Vec<Value>)
        requires
            old(self).wf(),
            old(self)@.plausible(stack.addr()),
            stack.addr() + 8 + 8 * (at + args@.len()) <= old(self)@.limit_of(stack.addr()),
        ensures
            final(self).wf(),
            final(self)@.layout() == old(self)@.layout(),
            final(self)@ == old(self)@.push_args(stack.addr(), at as int, args@, 0),
    {
        let mut i: usize = 0;
        while i < args.len()
            invariant
                i <= args@.len(),
                self.wf(),
                old(self)@.plausible(stack.addr()),
                stack.addr() + 8 + 8 * (at + args@.len()) <= old(self)@.limit_of(stack.addr()),
                self@.layout() == old(self)@.layout(),
                old(self)@.push_args(stack.addr(), at as int, args@, 0) == self@.push_args(
                    stack.addr(),
                    at as int,
                    args@,
                    i as int,
                ),
            decreases args@.len() - i,
        {
            self.store(stack, at + i, args[i]);
            i = i + 1;
        }
    }

    fn poise(&mut self, process: Value, stack: Value, method: Value, receiver: Value, args: &Vec<Value>)
        requires
            old(self).wf(),
            old(self)@.plausible(process.addr()),
            process.addr() + 8 + 8 * PROCESS_NUM_VM_SLOTS <= old(self)@.limit_of(process.addr()),
            old(self)@.plausible(stack.addr()),
            args@.len() <= 15,
            stack.addr() + 8 + 8 * INITIAL_STACK_SLOTS <= old(self)@.limit_of(stack.addr()),
        ensures
            final(self).wf(),
            final(self)@.layout() == old(self)@.layout(),
            final(self)@ == old(self)@.poised(process, stack, method, receiver, args@),
    {
        reveal(HeapView::poised);
        let f: usize = STACK_FRAMES_BASE;
        self.store(stack, STACK_OWNER, process);
        self.store(process, PROCESS_STACK, stack);
        self.poke(process, PROCESS_FRAME_OFFSET, Value::from_int(STACK_FRAMES_BASE as i64));
        self.poke(process, PROCESS_PC, Value::from_int(0));
        self.poke(process, PROCESS_PRIORITY, Value::from_int(4));
        self.poke(process, PROCESS_SERIAL_COUNTER, Value::from_int(1));
        self.poke(stack, f + FRAME_CALLER, Value::from_int(0));
        self.poke(stack, f + FRAME_RETINFO, Value::from_int(0));
        self.store(stack, f + FRAME_METHOD, method);
        self.poke(stack, f + FRAME_FLAGS, Value::from_int(FIRST_SERIAL));
        self.store(stack, f + FRAME_RECEIVER, receiver);
        self.push_args(stack, f + FRAME_RECEIVER + 1, args);
    }
}

impl Vm {
    /// Allocate, collecting when there is no room. Values in flight must be
    /// rooted in `temp_roots`.
    #[verifier::spinoff_prover]
    #[verifier::rlimit(60)]
    pub(crate) fn alloc_api(&mut self, class: u32, format: u64, n: usize) -> (r: Result<
        Value,
        VmError,
    >)
        requires
            old(self).wf(),
            class <= MAX_CLASS_INDEX,
        ensures
            final(self).wf(),
            crate::gc::outcome(r, final(self)@, old(self)@.allocated(class, format, n as int)),
            r is Ok ==> final(self)@.temp_roots.len() == old(self)@.temp_roots.len(),
            final(self)@.temp_roots.len() >= old(self)@.temp_roots.len(),
            r matches Ok(v) ==> {
                &&& v.tagged_ptr()
                &&& v.addr() <= usize::MAX
                &&& final(self)@.heap.whole(v.addr())
                &&& format == FMT_FIXED || format == FMT_PTRS ==> final(self)@.heap.nslots(v.addr())
                    == n
                &&& format != FMT_FIXED && format != FMT_PTRS ==> final(self)@.heap.bytes_ok(
                    v.addr(),
                ) && final(self)@.heap.byte_len(v.addr()) == n && v.addr() + 8 + n <= final(
                    self
                )@.heap.limit_of(v.addr())
            },
    {
        reveal(VmView::allocated);
        let nil = self.nil();
        if let Some(v) = self.heap.attempt(class, format, n, nil) {
            return Ok(v);
        }
        self.collect_young()?;
        if let Some(v) = self.heap.attempt(class, format, n, nil) {
            return Ok(v);
        }
        self.collect_old()?;
        match self.heap.attempt(class, format, n, nil) {
            Some(v) => Ok(v),
            None => Err(VmError::OutOfMemory),
        }
    }

    /// A new process that will run a method on a receiver and arguments.
    pub fn spawn_process(&mut self, method: Value, receiver: Value, args: &[Value]) -> (r: Result<
        Value,
        VmError,
    >)
        requires
            old(self).wf(),
            old(self)@.heap.shaped(method.addr(), METHOD_HEADER + 1),
            crate::vm::mh_argc(old(self)@.heap.mh(method)) == args@.len(),
        ensures
            final(self).wf(),
            crate::gc::outcome(r, final(self)@, old(self)@.spawned(method, receiver, args@)),
            r is Ok ==> final(self)@.temp_roots.len() == old(self)@.temp_roots.len(),
    {
        let ghost v0 = self@;
        let n: usize = self.method_argc(method);
        let base: usize = self.temp_roots.len();
        self.temp_roots.push(method);
        self.temp_roots.push(receiver);
        let mut i: usize = 0;
        while i < n
            invariant
                i <= n,
                n == args@.len(),
                self.wf(),
                self@ == (VmView {
                    temp_roots: v0.temp_roots.push(method).push(receiver) + args@.subrange(
                        0,
                        i as int,
                    ),
                    ..v0
                }),
            decreases n - i,
        {
            self.temp_roots.push(args[i]);
            i = i + 1;
            assert(self@.temp_roots =~= v0.temp_roots.push(method).push(receiver) + args@.subrange(
                0,
                i as int,
            ));
        }
        assert(args@.subrange(0, n as int) =~= args@);
        let p = self.alloc_api(CLASS_PROCESS, FMT_FIXED, PROCESS_NUM_VM_SLOTS)?;
        self.temp_roots.push(p);
        let stack = self.alloc_api(CLASS_STACK, FMT_PTRS, INITIAL_STACK_SLOTS)?;
        let len: usize = self.temp_roots.len();
        let process = self.temp_roots[len - 1];
        let method1 = self.temp_roots[base];
        let receiver1 = self.temp_roots[base + 1];
        let args1 = crate::gc::copy_range(&self.temp_roots, base + 2, len - 1);
        if !self.heap.shaped(process, PROCESS_NUM_VM_SLOTS) {
            return fatal("spawn: malformed process");
        }
        let ghost t = self@.temp_roots;
        assert(t.subrange(base as int, len - 1).subrange(2, len - 1 - base) =~= args1@);
        self.temp_roots = crate::gc::copy_range(&self.temp_roots, 0, base);
        self.heap.poise(process, stack, method1, receiver1, &args1);
        Ok(process)
    }
}

} // verus!
