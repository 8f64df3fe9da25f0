//! The compiled-code state: installation, linking, patching and tiering.

use smallishtalk::assembler::Insn;
use smallishtalk::fixture::MethodBuilder;
use smallishtalk::jit::CodeCache;
use smallishtalk::treaty::{
    CLASS_COMPILEDMETHOD, CLASS_SMALLINTEGER, JITCTL_FLUSH_ALL, JITCTL_GET_ENABLED,
    JITCTL_GET_PROFILING_LEVEL, JITCTL_GET_THRESHOLD, JITCTL_SET_ENABLED,
    JITCTL_SET_PROFILING_LEVEL, JITCTL_SET_THRESHOLD, JIT_PATCH_CLASS, JIT_PATCH_TARGET,
    JIT_RETPOINT_NONE, SEMAPHORE_EXCESS_SIGNALS, SPECIAL_JIT_SEMAPHORE, VMSTATE_HANDLE_SHIFT,
    VMSTATE_QUEUED_SHIFT,
};
use smallishtalk::value::Value;
use smallishtalk::vm::Vm;

fn maps(
    entry_off: u32,
    reentry: &[(u32, u32)],
    retpts: &[u32],
    patches: &[(u32, u8, u8)],
) -> Vec<u8> {
    let mut m = Vec::new();
    let w = |m: &mut Vec<u8>, v: u32| m.extend_from_slice(&v.to_le_bytes());
    w(&mut m, entry_off);
    w(&mut m, reentry.len() as u32);
    w(&mut m, retpts.len() as u32);
    w(&mut m, patches.len() as u32);
    for &(pc, off) in reentry {
        w(&mut m, pc);
        w(&mut m, off);
    }
    for &r in retpts {
        w(&mut m, r);
    }
    for &(off, kind, site) in patches {
        w(&mut m, off);
        w(&mut m, kind as u32 | (site as u32) << 8);
    }
    m
}

fn simple_method(vm: &mut Vm) -> Value {
    MethodBuilder::new(0, 4)
        .insns(vec![Insn::LoadInt { d: 1, imm: 5 }, Insn::Ret { a: 1 }])
        .build(vm)
}

/// The same method runs interpreted when not installed.
#[test]
fn same_method_interpreted_matches() {
    let mut vm = Vm::bare_test();
    let method = MethodBuilder::new(0, 4)
        .insns(vec![Insn::LoadInt { d: 1, imm: 42 }, Insn::Ret { a: 1 }])
        .build(&mut vm);
    let r = vm.call(method, Value::from_int(0), &[]).unwrap();
    assert_eq!(r.as_int(), 42);
    assert_eq!(vm.counters.jit_enters, 0);
}

/// Installation validates the maps structurally.
#[test]
fn install_validates_maps() {
    let mut vm = Vm::bare_test();
    vm.jit_init();
    let method = MethodBuilder::new(0, 4)
        .insns(vec![Insn::LoadNil { d: 1 }, Insn::Ret { a: 1 }])
        .build(&mut vm);
    let code = vec![0xC3u8; 8];
    // entry offset out of bounds
    assert!(vm.jit_install(method, &code, &maps(64, &[], &[], &[])).is_err());
    // truncated maps
    assert!(vm.jit_install(method, &code, &[1, 2, 3]).is_err());
    // unsorted re-entry map
    assert!(vm
        .jit_install(method, &code, &maps(0, &[(5, 0), (3, 0)], &[], &[]))
        .is_err());
    // bad patch kind
    assert!(vm
        .jit_install(method, &code, &maps(0, &[], &[], &[(0, 7, 0)]))
        .is_err());
}

/// Each refusal says what is wrong.
#[test]
fn refusals_name_the_fault() {
    let mut vm = Vm::bare_test();
    let method = simple_method(&mut vm);
    let code = vec![0xC3u8; 8];
    let refused = |vm: &mut Vm, m: &[u8]| vm.jit_install(method, &code, m).unwrap_err();
    assert_eq!(refused(&mut vm, &[1, 2, 3]), "maps truncated");
    let mut long = maps(0, &[], &[], &[]);
    long.push(0);
    assert_eq!(refused(&mut vm, &long), "maps length 17 != expected 16");
    assert!(refused(&mut vm, &maps(8, &[], &[], &[])).contains("8"));
    assert!(!refused(&mut vm, &maps(0, &[(1, 8)], &[], &[])).is_empty());
    assert!(!refused(&mut vm, &maps(0, &[], &[8], &[])).is_empty());
    assert!(!refused(&mut vm, &maps(0, &[], &[], &[(5, JIT_PATCH_CLASS, 0)])).is_empty());
    // None of them took a handle.
    assert!(vm.jit.as_ref().unwrap().handles.is_empty());
}

/// Installing gives the method a handle; installing again unlinks the first.
#[test]
fn install_links_and_relinks() {
    let mut vm = Vm::bare_test();
    let method = simple_method(&mut vm);
    assert_eq!(vm.jit_handle_of(method), None);
    let code = vec![0x90u8, 0xC3];
    let m = maps(0, &[(1, 1)], &[JIT_RETPOINT_NONE, 1], &[]);
    assert_eq!(vm.jit_install(method, &code, &m), Ok(0));
    assert_eq!(vm.jit_handle_of(method), Some(0));
    assert_eq!(vm.counters.jit_installs, 1);
    let base = vm.jit.as_ref().unwrap().cache.base_addr();
    let off = vm.jit.as_ref().unwrap().handles[0].code_off;
    assert_eq!(vm.native_return_addr(method, 0), None);
    assert_eq!(vm.native_return_addr(method, 1), Some((base + off + 1) as u64));
    assert_eq!(vm.native_return_addr(method, 2), None);

    assert_eq!(vm.jit_install(method, &code, &m), Ok(1));
    assert_eq!(vm.jit_handle_of(method), Some(1));
    assert!(!vm.jit.as_ref().unwrap().handles[0].live);
    assert_eq!(vm.counters.jit_unlinks, 1);

    vm.jit_unlink_method(method);
    assert_eq!(vm.jit_handle_of(method), None);
    assert_eq!(vm.vmstate_of(method) >> VMSTATE_HANDLE_SHIFT, 0);
}

/// A flush drops every handle and keeps the glue.
#[test]
fn flush_drops_code_and_keeps_glue() {
    let mut vm = Vm::bare_test();
    vm.jit_init();
    let method = simple_method(&mut vm);
    let glue = vm.jit.as_ref().unwrap().cache.used();
    vm.jit_install(method, &[0xC3; 40], &maps(0, &[], &[], &[])).unwrap();
    let used_before = vm.jit.as_ref().unwrap().cache.used();
    vm.jit_flush_all().unwrap();
    assert!(vm.jit.as_ref().unwrap().cache.used() < used_before);
    assert_eq!(vm.jit.as_ref().unwrap().cache.used(), glue);
    assert_eq!(vm.vmstate_of(method) >> VMSTATE_HANDLE_SHIFT, 0);
    assert_eq!(vm.jit_handle_of(method), None);
    assert_eq!(vm.call(method, Value::from_int(0), &[]).unwrap().as_int(), 5);
    // Refused while compiled code runs.
    vm.jit.as_mut().unwrap().in_native = true;
    assert!(vm.jit_flush_all().is_err());
    assert!(vm.jit_control(JITCTL_FLUSH_ALL, 0).is_err());
}

/// Two activations reach a threshold of two; the method is queued once,
/// follows the collector, and the compiler is told.
#[test]
fn queue_and_handles_are_gc_roots() {
    let mut vm = Vm::bare_test();
    vm.jit_init();
    vm.jit_control(JITCTL_SET_THRESHOLD, 2).unwrap();
    let method = MethodBuilder::new(0, 4)
        .insns(vec![Insn::LoadInt { d: 1, imm: 9 }, Insn::Ret { a: 1 }])
        .build(&mut vm);
    let sel = vm.intern("m0Bump");
    let int_class = vm.class_table_at(CLASS_SMALLINTEGER);
    vm.install_method(int_class, sel, method).unwrap();

    let caller = MethodBuilder::new(0, 10)
        .insns(vec![
            Insn::LoadInt { d: 5, imm: 3 },
            Insn::Send { d: 1, r: 5, site: 0 },
            Insn::LoadInt { d: 5, imm: 3 },
            Insn::Send { d: 2, r: 5, site: 1 },
            Insn::Ret { a: 1 },
        ])
        .site_named(&mut vm, "m0Bump", 0)
        .site_named(&mut vm, "m0Bump", 1)
        .build(&mut vm);
    vm.call(caller, Value::from_int(0), &[]).unwrap();
    assert_eq!(vm.counters.jit_trips, 1);
    assert_eq!(vm.jit.as_ref().unwrap().queue.len(), 1);
    let qm = vm.jit.as_ref().unwrap().queue[0];
    assert_eq!(qm, method);
    assert_eq!(vm.jit_roots(), vec![method]);
    // Nobody waits yet: the signal is kept.
    let sem = vm.specials()[SPECIAL_JIT_SEMAPHORE];
    assert_eq!(vm.heap.slot(sem.as_ptr(), SEMAPHORE_EXCESS_SIGNALS).as_int(), 1);

    vm.collect_young().unwrap();
    vm.collect_old().unwrap();
    let qm = vm.jit.as_ref().unwrap().queue[0];
    assert_eq!(vm.heap.header(qm.as_ptr()).class_index(), CLASS_COMPILEDMETHOD);
    assert!(vm.vmstate_of(qm) & (1 << VMSTATE_QUEUED_SHIFT) != 0);
    assert_eq!(vm.jit_next_request(), qm);
    assert_eq!(vm.jit_next_request(), vm.nil());
}

/// Settings are read back, clamped, and refused when unknown.
#[test]
fn control_reads_and_clamps() {
    let mut vm = Vm::bare_test();
    assert_eq!(vm.jit_control(JITCTL_GET_THRESHOLD, 0), Ok(1000));
    assert_eq!(vm.jit_control(JITCTL_SET_THRESHOLD, -5), Ok(1));
    assert_eq!(vm.jit_control(JITCTL_GET_ENABLED, 0), Ok(1));
    assert_eq!(vm.jit_control(JITCTL_SET_ENABLED, 0), Ok(0));
    assert_eq!(vm.jit_control(JITCTL_GET_ENABLED, 0), Ok(0));
    assert_eq!(vm.jit_control(JITCTL_SET_PROFILING_LEVEL, 9), Ok(2));
    assert_eq!(vm.jit_control(JITCTL_GET_PROFILING_LEVEL, 0), Ok(2));
    assert!(vm.jit_control(99, 0).is_err());
    // Disabled: nothing is counted.
    let method = simple_method(&mut vm);
    vm.bump_invocation(method);
    assert_eq!(vm.vmstate_of(method), 0);
    vm.jit_control(JITCTL_SET_ENABLED, 1).unwrap();
    vm.bump_invocation(method);
    assert_eq!(vm.vmstate_of(method) & 0xffff, 1);
    assert_eq!(vm.counters.jit_trips, 1);
}

/// Patching a send site rewrites the class word and the branch distance, and
/// clearing sends the site back to the miss path.
#[test]
fn sites_are_patched_and_cleared() {
    let mut vm = Vm::bare_test();
    let caller = simple_method(&mut vm);
    let callee = simple_method(&mut vm);
    let m = maps(0, &[], &[], &[(0, JIT_PATCH_CLASS, 3), (4, JIT_PATCH_TARGET, 3)]);
    vm.jit_install(caller, &[0; 8], &m).unwrap();
    vm.jit_install(callee, &[0xC3; 4], &maps(0, &[], &[], &[])).unwrap();
    vm.jit_patch_send_site(caller, 3, 77, callee);
    assert_eq!(vm.counters.jit_sites_direct, 1);
    let off = vm.jit.as_ref().unwrap().handles[0].code_off;
    let to = vm.jit.as_ref().unwrap().handles[1].code_off;
    let word = |vm: &Vm, at: usize| {
        let c = &vm.jit.as_ref().unwrap().cache.code;
        u32::from_le_bytes([c[at], c[at + 1], c[at + 2], c[at + 3]])
    };
    assert_eq!(word(&vm, off), 77);
    assert_eq!(word(&vm, off + 4) as i32, (to as i64 - (off + 8) as i64) as i32);
    // Another site of the same caller is not touched.
    vm.jit_patch_send_site(caller, 4, 78, callee);
    assert_eq!(word(&vm, off), 77);
    vm.jit_clear_compiled_sites();
    assert_eq!(word(&vm, off), 0);
    vm.jit_patch_class(0, 0, 5);
    assert_eq!(word(&vm, off), 5);
    // A callee without code is reached through the interpreter glue.
    vm.jit_unlink_method(callee);
    vm.jit_patch_send_site(caller, 3, 79, callee);
    assert_eq!(vm.counters.jit_sites_interp, 1);
    assert_eq!(word(&vm, off), 79);
}

/// The cache aligns what it is given and refuses what does not fit.
#[test]
fn cache_aligns_and_fills_up() {
    let mut c = CodeCache::new(4096, 64);
    assert_eq!(c.install(&[1, 2, 3]), Some(0));
    assert_eq!(c.install(&[4]), Some(16));
    assert_eq!(c.used(), 17);
    assert_eq!(c.install(&[0; 40]), None);
    c.patch(0, 0x0403_0201);
    assert_eq!(&c.code[0..4], &[1, 2, 3, 4]);
    c.reset_to(3);
    assert_eq!(c.used(), 3);
}
