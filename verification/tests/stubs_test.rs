//! What compiled code asks of the machine, and where it goes on.

use smallishtalk::assembler::Insn;
use smallishtalk::fixture::MethodBuilder;
use smallishtalk::machine::Regs;
use smallishtalk::stubs::{Left, Next};
use smallishtalk::treaty::{
    CLASS_ARRAY, CLASS_BYTESTRING, CLASS_SMALLINTEGER, FMT_BYTES_BASE, FMT_PTRS,
    GC_BIT_REMEMBERED, JIT_PATCH_CLASS, JIT_PATCH_TARGET, PRIM_INT_ADD, PROCESS_PC,
    PROCESS_PRIORITY, PROCESS_STACK, SPECSEL_PLUS,
};
use smallishtalk::value::Value;
use smallishtalk::vm::{Vm, VmError};

fn num(n: i64) -> Value {
    Value::from_int(n)
}

fn maps(reentry: &[(u32, u32)], patches: &[(u32, u8, u8)]) -> Vec<u8> {
    let mut words = vec![0, reentry.len() as u32, 0, patches.len() as u32];
    for &(pc, off) in reentry {
        words.push(pc);
        words.push(off);
    }
    for &(off, kind, site) in patches {
        words.push(off);
        words.push(kind as u32 | (site as u32) << 8);
    }
    let mut m = Vec::new();
    for w in words {
        m.extend_from_slice(&w.to_le_bytes());
    }
    m
}

/// A process at the start of a method, made the active one.
fn begin(vm: &mut Vm, method: Value, receiver: Value, args: &[Value]) -> (Value, Regs) {
    let p = vm.spawn_process(method, receiver, args).unwrap();
    vm.start(p);
    let regs = vm.load_regs();
    (p, regs)
}

/// `answer` on SmallInteger, and a method that sends it to 3.
fn sender(vm: &mut Vm) -> (Value, Value) {
    let callee = MethodBuilder::new(0, 4)
        .insns(vec![Insn::LoadInt { d: 1, imm: 42 }, Insn::Ret { a: 1 }])
        .build(vm);
    let sel = vm.intern("answer");
    let ints = vm.class_table_at(CLASS_SMALLINTEGER);
    vm.install_method(ints, sel, callee).unwrap();
    let caller = MethodBuilder::new(0, 10)
        .insns(vec![
            Insn::LoadInt { d: 5, imm: 3 },
            Insn::Send { d: 1, r: 5, site: 0 },
            Insn::Ret { a: 1 },
        ])
        .site_named(vm, "answer", 0)
        .build(vm);
    (caller, callee)
}

fn word(vm: &Vm, at: usize) -> u32 {
    let c = &vm.jit.as_ref().unwrap().cache.code;
    u32::from_le_bytes([c[at], c[at + 1], c[at + 2], c[at + 3]])
}

fn address(vm: &Vm, handle: usize, off: usize) -> u64 {
    let j = vm.jit.as_ref().unwrap();
    (j.cache.base_addr() + j.handles[handle].code_off + off) as u64
}

fn patched() -> Vec<u8> {
    maps(&[(2, 4)], &[(0, JIT_PATCH_CLASS, 0), (4, JIT_PATCH_TARGET, 0)])
}

/// A miss makes the send, fills the compiled site, and leaves for the
/// interpreter when the callee has no code.
#[test]
fn miss_sends_and_fills_the_site() {
    let mut vm = Vm::bare_test();
    let (caller, callee) = sender(&mut vm);
    vm.jit_install(caller, &[0; 8], &patched()).unwrap();
    let (p, mut regs) = begin(&mut vm, caller, num(0), &[]);
    vm.put(&regs, 5, num(3));
    assert_eq!(vm.jit_send_miss(&mut regs, 0, 5, 1, 2).unwrap(), Next::Exit);
    assert_eq!(regs.method, callee);
    let off = vm.jit.as_ref().unwrap().handles[0].code_off;
    assert_eq!(word(&vm, off), CLASS_SMALLINTEGER);
    assert!(vm.counters.jit_sites_interp > 0);
    // The interpreter goes on in the callee and returns into the caller.
    assert_eq!(vm.run(p).unwrap(), num(42));
}

/// A callee with code is jumped to.
#[test]
fn miss_jumps_to_compiled_callees() {
    let mut vm = Vm::bare_test();
    let (caller, callee) = sender(&mut vm);
    vm.jit_install(caller, &[0; 8], &patched()).unwrap();
    vm.jit_install(callee, &[0xC3; 4], &maps(&[], &[])).unwrap();
    let (_, mut regs) = begin(&mut vm, caller, num(0), &[]);
    vm.put(&regs, 5, num(3));
    let entry = address(&vm, 1, 0);
    assert_eq!(vm.jit_send_miss(&mut regs, 0, 5, 1, 2).unwrap(), Next::Jump(entry));
    assert!(vm.counters.jit_sites_direct > 0);
}

/// The interpreter's own misses fill compiled sites too, and a flush empties
/// them.
#[test]
fn interpreted_misses_fill_compiled_sites() {
    let mut vm = Vm::bare_test();
    let (caller, _) = sender(&mut vm);
    vm.jit_install(caller, &[0; 8], &patched()).unwrap();
    let off = vm.jit.as_ref().unwrap().handles[0].code_off;
    assert_eq!(vm.call(caller, num(0), &[]).unwrap(), num(42));
    assert_eq!(word(&vm, off), CLASS_SMALLINTEGER);
    vm.flush_caches();
    assert_eq!(word(&vm, off), 0);
}

/// A primitive that succeeds returns from its frame; one that fails goes on
/// in line with the code in the slot after the arguments.
#[test]
fn primitives_return_or_fall_through() {
    let mut vm = Vm::bare_test();
    let add = MethodBuilder::new(1, 6)
        .insns(vec![Insn::RetSelf])
        .primitive(PRIM_INT_ADD)
        .build(&mut vm);
    let (_, mut regs) = begin(&mut vm, add, num(3), &[num(4)]);
    assert_eq!(vm.jit_prim_call(&mut regs).unwrap(), Next::Halt(num(7)));

    let nil = vm.nil();
    let (_, mut regs) = begin(&mut vm, add, num(3), &[nil]);
    assert_eq!(vm.jit_prim_call(&mut regs).unwrap(), Next::Continue);
    assert!(vm.get(&regs, 2).is_int());

    let plain = MethodBuilder::new(0, 6).insns(vec![Insn::RetSelf]).build(&mut vm);
    let (_, mut regs) = begin(&mut vm, plain, num(3), &[]);
    assert!(vm.jit_prim_call(&mut regs).is_err());
}

/// The slow path of a specialized send is the ordinary send.
#[test]
fn slow_path_sends_the_selector() {
    let mut vm = Vm::bare_test();
    let plus = MethodBuilder::new(1, 4)
        .insns(vec![Insn::LoadInt { d: 2, imm: 99 }, Insn::Ret { a: 2 }])
        .build(&mut vm);
    let sel = vm.intern("+");
    let ints = vm.class_table_at(CLASS_SMALLINTEGER);
    vm.install_method(ints, sel, plus).unwrap();
    let m = MethodBuilder::new(0, 10)
        .insns(vec![Insn::Nop, Insn::Ret { a: 1 }])
        .build(&mut vm);
    let (p, mut regs) = begin(&mut vm, m, num(0), &[]);
    vm.put(&regs, 2, num(3));
    let nil = vm.nil();
    vm.put(&regs, 3, nil);
    let before = vm.counters.spec_fallthrough[SPECSEL_PLUS];
    assert_eq!(vm.jit_send_slow(&mut regs, SPECSEL_PLUS, 1, [2, 3, 0], 1).unwrap(), Next::Exit);
    assert_eq!(vm.counters.spec_fallthrough[SPECSEL_PLUS], before + 1);
    assert_eq!(regs.method, plus);
    assert_eq!(vm.run(p).unwrap(), num(99));
}

/// A return into a frame goes on in its code where the code has a place for
/// the instruction.
#[test]
fn returns_go_on_at_mapped_instructions() {
    let mut vm = Vm::bare_test();
    let (caller, _) = sender(&mut vm);
    vm.jit_install(caller, &[0; 8], &patched()).unwrap();
    let (p, mut regs) = begin(&mut vm, caller, num(0), &[]);
    let there = address(&vm, 0, 4);
    assert_eq!(vm.jit_resume_at(&mut regs, 2), Next::Jump(there));
    assert_eq!(vm.heap.slot(p.as_ptr(), PROCESS_PC), num(2));
    assert_eq!(vm.jit_resume_at(&mut regs, 1), Next::Exit);
    assert_eq!(vm.heap.slot(p.as_ptr(), PROCESS_PC), num(1));
}

/// A return out of a method that is its own home ends the process.
#[test]
fn nonlocal_return_outside_of_blocks() {
    let mut vm = Vm::bare_test();
    let m = MethodBuilder::new(0, 6)
        .insns(vec![Insn::Nop, Insn::Nlr { a: 1 }])
        .build(&mut vm);
    let (_, mut regs) = begin(&mut vm, m, num(0), &[]);
    vm.put(&regs, 1, num(8));
    let by_stub = vm.jit_nlr(&mut regs, 1, 2);
    let mut other = Vm::bare_test();
    let m = MethodBuilder::new(0, 6)
        .insns(vec![Insn::LoadInt { d: 1, imm: 8 }, Insn::Nlr { a: 1 }])
        .build(&mut other);
    let by_run = other.call(m, num(0), &[]);
    // Whatever the interpreter makes of it, compiled code gets the same.
    match by_run {
        Ok(v) => assert_eq!(by_stub.unwrap(), Next::Halt(v)),
        Err(_) => assert!(by_stub.is_err()),
    }
}

/// A safepoint goes on in line unless a process of higher priority takes
/// over.
#[test]
fn safepoints_preempt() {
    let mut vm = Vm::bare_test();
    let m = MethodBuilder::new(0, 6)
        .insns(vec![Insn::Nop, Insn::RetSelf])
        .build(&mut vm);
    let other = vm.spawn_process(m, num(1), &[]).unwrap();
    let (p, mut regs) = begin(&mut vm, m, num(0), &[]);
    assert_eq!(vm.jit_safepoint(&mut regs, 1), Next::Continue);
    assert_eq!(vm.heap.slot(p.as_ptr(), PROCESS_PC), num(1));
    assert_eq!(vm.active_process, p);

    vm.heap.set_slot_raw(other.as_ptr(), PROCESS_PRIORITY, num(6));
    vm.make_runnable(other);
    assert_eq!(vm.jit_safepoint(&mut regs, 1), Next::Exit);
    assert_eq!(vm.active_process, other);
}

/// A due sample of compiled code is counted.
#[test]
fn safepoints_sample() {
    let mut vm = Vm::bare_test();
    let m = MethodBuilder::new(0, 6)
        .insns(vec![Insn::Nop, Insn::RetSelf])
        .build(&mut vm);
    let (_, mut regs) = begin(&mut vm, m, num(0), &[]);
    vm.profiler_start(1);
    vm.safepoint.sample_due = true;
    assert_eq!(vm.jit_safepoint(&mut regs, 1), Next::Continue);
    assert_eq!(vm.counters.jit_samples_native, 1);
    assert!(!vm.safepoint.sample_due);
    assert_eq!(vm.jit_safepoint(&mut regs, 1), Next::Continue);
    assert_eq!(vm.counters.jit_samples_native, 1);
}

/// Leaving compiled code where it was entered is for the interpreter; what
/// moved on may be entered again.
#[test]
fn leaving_and_entering_again() {
    let mut vm = Vm::bare_test();
    let (caller, _) = sender(&mut vm);
    vm.jit_install(caller, &[0; 8], &patched()).unwrap();
    let (p, mut regs) = begin(&mut vm, caller, num(0), &[]);
    let frame = regs.frame;
    vm.native_entered(&regs);
    assert!(vm.jit.as_ref().unwrap().in_native);
    assert_eq!(vm.counters.jit_enters, 1);
    assert_eq!(vm.native_left(&mut regs, Left::Exit, p, frame, 0), None);
    assert!(!vm.jit.as_ref().unwrap().in_native);
    assert_eq!(vm.counters.jit_exits, 1);

    vm.heap.set_slot_raw(p.as_ptr(), PROCESS_PC, num(2));
    let there = address(&vm, 0, 4);
    assert_eq!(vm.native_left(&mut regs, Left::Exit, p, frame, 0), Some(there));

    assert_eq!(vm.native_left(&mut regs, Left::Halt(num(5)), p, frame, 0), None);
    assert_eq!(regs.halted, Some(num(5)));
}

/// Compiled code reads the machine as it is.
#[test]
fn globals_follow_the_machine() {
    let mut vm = Vm::bare_test();
    assert_eq!(vm.jit_sync_globals(), None);
    assert!(vm.jit_runtime_entry(0).is_none());
    let (caller, callee) = sender(&mut vm);
    vm.jit_install(caller, &[0; 8], &patched()).unwrap();
    vm.jit_install(callee, &[0xC3; 4], &maps(&[], &[])).unwrap();
    let (p, _) = begin(&mut vm, caller, num(0), &[]);
    let g = vm.jit_sync_globals().unwrap();
    assert_eq!(g.active_process, p.raw());
    assert_eq!(g.young_base, vm.heap.young_from.base() as u64);
    assert_eq!(g.young_limit, vm.heap.young_from.limit() as u64);
    assert_eq!((g.nil, g.true_v), (vm.nil().raw(), vm.true_v().raw()));
    assert_eq!(g.false_v, vm.false_v().raw());
    // A scavenge exchanges the young spaces.
    vm.collect_young().unwrap();
    let g1 = vm.jit_sync_globals().unwrap();
    assert_ne!(g1.young_base, g.young_base);
    assert_eq!((g1.nil, g1.true_v, g1.false_v), (g.nil, g.true_v, g.false_v));

    let e = vm.jit_runtime_entry(0).unwrap();
    assert_eq!(e.code, address(&vm, 0, 0));
    assert!(e.retpts.is_empty());
    vm.jit_unlink_method(caller);
    assert_eq!(vm.jit_runtime_entry(0).unwrap().code, 0);
    assert!(vm.jit_runtime_entry(2).is_none());
}

/// Compiled code allocates with collections when young space is full, and in
/// old space at last; what fits nowhere is refused after both collections
/// (the second one scavenges too).
#[test]
fn compiled_code_allocates() {
    let mut vm = Vm::bare_test();
    let a = vm.jit_alloc(CLASS_ARRAY, FMT_PTRS, 3).unwrap();
    assert!(vm.heap.is_young(a.as_ptr()));
    assert_eq!(vm.heap.num_slots(a.as_ptr()), 3);
    assert_eq!(vm.heap.slot(a.as_ptr(), 2), vm.nil());
    let b = vm.jit_alloc(CLASS_BYTESTRING, FMT_BYTES_BASE, 5).unwrap();
    assert_eq!(vm.heap.byte_size(b.as_ptr()), 5);

    let young = vm.heap.young_from.limit() - vm.heap.young_from.base();
    for _ in 0..=young / 8000 {
        vm.jit_alloc(CLASS_ARRAY, FMT_PTRS, 1000).unwrap();
    }
    assert!(vm.scavenge_count > 0);

    let (s, c) = (vm.scavenge_count, vm.compact_count);
    let big = vm.jit_alloc(CLASS_ARRAY, FMT_PTRS, 1 << 40);
    assert!(matches!(big, Err(VmError::OutOfMemory)));
    assert_eq!((vm.scavenge_count, vm.compact_count), (s + 2, c + 1));
    assert!(vm.jit_alloc(CLASS_ARRAY, FMT_PTRS, 3).is_ok());
}

/// Growing gives the process a stack of twice the size with the same words;
/// past the limit nothing changes.
#[test]
fn compiled_code_grows_its_stack() {
    let mut vm = Vm::bare_test();
    let m = MethodBuilder::new(0, 6).insns(vec![Insn::RetSelf]).build(&mut vm);
    let (p, regs) = begin(&mut vm, m, num(9), &[]);
    vm.put(&regs, 2, num(77));
    let n = vm.heap.num_slots(regs.stack.as_ptr());
    let words: Vec<Value> =
        (0..n as usize).map(|i| vm.heap.slot(regs.stack.as_ptr(), i)).collect();
    let s = vm.jit_grow_stack(n as usize + 1).unwrap();
    assert_eq!(vm.heap.slot(p.as_ptr(), PROCESS_STACK), s);
    assert_eq!(vm.heap.num_slots(s.as_ptr()), 2 * n);
    for (i, w) in words.iter().enumerate() {
        assert_eq!(vm.heap.slot(s.as_ptr(), i), *w);
    }
    assert_eq!(vm.heap.slot(s.as_ptr(), n as usize), vm.nil());
    assert_eq!(vm.stack_grow_count, 1);

    vm.max_stack_bytes = 16 * n as usize;
    assert!(matches!(vm.jit_grow_stack(2 * n as usize + 1), Err(VmError::StackOverflow)));
    assert_eq!(vm.heap.slot(p.as_ptr(), PROCESS_STACK), s);
    assert_eq!(vm.stack_grow_count, 1);
}

/// An old object is listed and flagged.
#[test]
fn compiled_code_remembers() {
    let mut vm = Vm::bare_test();
    let old = vm.heap.alloc_ptrs_old(CLASS_ARRAY, 2, num(0)).unwrap();
    assert!(!vm.heap.ssb.contains(&old));
    vm.jit_remember(Value::from_ptr(old));
    assert_eq!(vm.heap.ssb.last(), Some(&old));
    assert!(vm.heap.header(old).gc_bits() & GC_BIT_REMEMBERED != 0);
}
