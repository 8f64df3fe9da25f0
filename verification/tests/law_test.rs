//! The laws of the machine on concrete values, and formulas with known
//! results.

use smallishtalk::arith::floored_divmod;
use smallishtalk::assembler::Insn;
use smallishtalk::counters::opcode_name;
use smallishtalk::fixture::MethodBuilder;
use smallishtalk::heap::{Heap, HeapConfig};
use smallishtalk::png::{crc32, encode_rgb};
use smallishtalk::requests::{HostReply, HostRequest};
use smallishtalk::run::RunExit;
use smallishtalk::treaty::{
    all_constants, treaty_st_source, CLASS_ARRAY, CLASS_BYTESTRING, CLASS_SMALLINTEGER,
    GC_BIT_REMEMBERED, IMG_MAGIC, IMG_OLD_SPACE_SIZE_OFFSET, IMG_SPECIAL_OBJECTS_OFFSET,
    METHOD_SEND_SITES, PRIM_INT_ADD, PRIM_NEW_SIZED, PROCESS_NEXT_LINK, PROCESS_PRIORITY,
    PROCESS_STACK, SEMAPHORE_EXCESS_SIGNALS, SEMAPHORE_QUEUE_HEAD, SITE_CACHE_CLASS, SITE_CACHE_METHOD, SPECIAL_CLASS_LIST, SPECIAL_FALSE,
    SPECIAL_NIL, SPECIAL_OBJECTS_COUNT, SPECIAL_TRUE,
};
use smallishtalk::value::Value;
use smallishtalk::vm::{Vm, VmConfig, VmError};

fn num(n: i64) -> Value {
    Value::from_int(n)
}

/// A structure with sharing and a cycle: `[a, a, cycle, 7]`.
fn knot(vm: &mut Vm) -> Value {
    let a = vm.make_string("shared").unwrap();
    vm.temp_roots.push(a);
    let root = vm.make_array(&[a, a, num(0), num(7)]).unwrap();
    vm.temp_roots.pop();
    vm.store_slot(root.as_ptr(), 2, root);
    root
}

fn check_knot(vm: &Vm, root: Value) {
    let r = root.as_ptr();
    assert_eq!(vm.heap.header(r).class_index(), CLASS_ARRAY);
    assert_eq!(vm.heap.num_slots(r), 4);
    let a = vm.heap.slot(r, 0);
    assert_eq!(a, vm.heap.slot(r, 1), "sharing is kept");
    assert_eq!(vm.heap.slot(r, 2), root, "cycles are kept");
    assert_eq!(vm.heap.slot(r, 3), num(7));
    assert_eq!(vm.heap.bytes(a.as_ptr()), b"shared");
}

#[test]
fn a_scavenge_keeps_the_graph() {
    let mut vm = Vm::bare_test();
    let root = knot(&mut vm);
    let hash = vm.identity_hash_of(root);
    vm.temp_roots.push(root);
    for _ in 0..10 {
        vm.collect_young().unwrap();
        let r = *vm.temp_roots.last().unwrap();
        check_knot(&vm, r);
        assert_eq!(vm.identity_hash_of(r), hash);
    }
}

#[test]
fn a_compaction_keeps_the_graph_and_the_first_objects() {
    let mut vm = Vm::bare_test();
    let first = [
        vm.specials()[SPECIAL_NIL],
        vm.specials()[SPECIAL_TRUE],
        vm.specials()[SPECIAL_FALSE],
    ];
    // Garbage in old space before the structure that stays.
    for _ in 0..20 {
        vm.heap.alloc_ptrs_old(CLASS_ARRAY, 50, num(0)).unwrap();
    }
    let root = knot(&mut vm);
    vm.temp_roots.push(root);
    let before = vm.heap.old.used_bytes();
    vm.collect_old().unwrap();
    assert!(vm.heap.old.used_bytes() < before);
    check_knot(&vm, *vm.temp_roots.last().unwrap());
    assert_eq!(first[0], vm.nil());
    assert_eq!(first[1], vm.true_v());
    assert_eq!(first[2], vm.false_v());
}

#[test]
fn an_image_gives_the_objects_back() {
    let mut vm = Vm::bare_test();
    let method = MethodBuilder::new(0, 4)
        .insns(vec![Insn::LoadInt { d: 1, imm: 3 }, Insn::Ret { a: 1 }])
        .build(&mut vm);
    let process = vm.spawn_process(method, vm.nil(), &[]).unwrap();
    vm.active_process = process;
    let root = knot(&mut vm);
    vm.set_special(7, root);
    while vm.heap.young_from.used_bytes() != 0 {
        vm.collect_old().unwrap();
    }
    let classes = vm.class_table.len();
    let data = vm.write_image().unwrap();
    let mut config = VmConfig::default();
    config.heap.young_bytes = 512 * 1024;
    let back = Vm::load_image(&data, config).unwrap();
    assert_ne!(back.heap.old.base(), vm.heap.old.base());
    assert_eq!(back.class_table.len(), classes);
    check_knot(&back, back.specials()[7]);
    assert_eq!(back.heap.header(back.active_process.as_ptr()), {
        let h = vm.heap.header(vm.active_process.as_ptr());
        h.with_gc_bits(h.gc_bits() & !3)
    });
}

#[test]
fn damaged_images_are_refused() {
    let mut vm = Vm::bare_test();
    vm.make_array(&[]).unwrap();
    assert!(matches!(vm.write_image(), Err(VmError::Fatal(_))));
    let refused = |data: &[u8]| match Vm::load_image(data, VmConfig::default()) {
        Err(VmError::Fatal(m)) => m,
        _ => panic!("accepted"),
    };
    assert_eq!(refused(&[0; 10]), "not a STIM image");
    assert_eq!(refused(&[0; 64]), "not a STIM image");
    let mut data = vec![0u8; 64];
    data[0..4].copy_from_slice(b"STIM");
    data[4] = 9;
    assert_eq!(refused(&data), "unsupported image version");
    data[4] = 1;
    data[24] = 8;
    assert_eq!(refused(&data), "truncated image");
    // An array that lies outside all memory.
    data[24] = 0;
    data[IMG_SPECIAL_OBJECTS_OFFSET + 7] = 0x70;
    assert_eq!(refused(&data), "corrupt image");
}

/// The image of a heap that holds two arrays: one of special objects, one of
/// classes.
fn two_arrays(specials: usize, classes: usize) -> Vec<u8> {
    let mut heap = Heap::new(HeapConfig::default());
    let base = heap.old.base();
    let sp = heap.alloc_ptrs_old(CLASS_ARRAY, specials, num(5)).unwrap();
    let cl = heap.alloc_ptrs_old(CLASS_ARRAY, classes, num(6)).unwrap();
    let size = heap.old.used_bytes();
    let mut data = Vec::new();
    data.extend_from_slice(&IMG_MAGIC.to_le_bytes());
    data.extend_from_slice(&1u32.to_le_bytes());
    for w in [0, base, size, sp - base, cl - base, 0, 0] {
        data.extend_from_slice(&(w as u64).to_le_bytes());
    }
    for i in 0..size / 8 {
        data.extend_from_slice(&heap.word(base + 8 * i).to_le_bytes());
    }
    data
}

/// What an image holds is loaded, though it is not enough to run.
#[test]
fn meagre_images_are_loaded() {
    let load = |data: &[u8]| Vm::load_image(data, VmConfig::default()).unwrap();
    // Nothing but a header.
    let mut data = vec![0u8; 64];
    data[0..4].copy_from_slice(b"STIM");
    data[4] = 1;
    let vm = load(&data);
    assert_eq!(vm.specials().len(), 0);
    assert_eq!(vm.class_table.len(), 0);
    assert_eq!(vm.heap.old.used_bytes(), 0);
    assert!(!vm.complete());
    // Fewer special objects than there are, as many, and more.
    for (there, loaded) in [(2, 2), (13, 13), (20, 13)] {
        let vm = load(&two_arrays(there, 3));
        assert_eq!(vm.specials().to_vec(), vec![num(5); loaded]);
        assert_eq!(vm.class_table, vec![num(6); 3]);
        assert_eq!(vm.complete(), there >= SPECIAL_OBJECTS_COUNT);
        assert_eq!(vm.active_process.as_ptr(), vm.heap.old.base());
    }
    // An array beyond the dump is empty.
    let mut beyond = two_arrays(2, 3);
    let past = (beyond.len() as u64).to_le_bytes();
    beyond[IMG_SPECIAL_OBJECTS_OFFSET..IMG_SPECIAL_OBJECTS_OFFSET + 8].copy_from_slice(&past);
    assert_eq!(load(&beyond).specials().len(), 0);
    // A size that is no whole number of words counts its whole words.
    let mut odd = two_arrays(2, 3);
    let size = odd.len() - 64;
    odd[IMG_OLD_SPACE_SIZE_OFFSET] += 3;
    assert!(matches!(
        Vm::load_image(&odd, VmConfig::default()),
        Err(VmError::Fatal(m)) if m == "truncated image"
    ));
    odd.extend_from_slice(&[0; 3]);
    let vm = load(&odd);
    assert_eq!(vm.heap.old.used_bytes(), size);
    assert_eq!(vm.specials().to_vec(), vec![num(5); 2]);
}

/// The lists of an image are made before the active process is looked at,
/// and stay when it is refused.
#[test]
fn refused_images_leave_their_lists() {
    let mut vm = Vm::bare_test();
    while vm.heap.young_from.used_bytes() != 0 {
        vm.collect_old().unwrap();
    }
    vm.active_process = num(0);
    let before = vm.heap.old.used_bytes();
    match vm.write_image() {
        Err(VmError::Fatal(m)) => assert_eq!(m, "active process must live in old space"),
        _ => panic!("written"),
    }
    let list = vm.specials()[SPECIAL_CLASS_LIST].as_ptr();
    assert_eq!(vm.heap.num_slots(list) as usize, vm.class_table.len());
    assert_eq!(
        vm.heap.old.used_bytes(),
        before + vm.heap.footprint(list) + 8 * (SPECIAL_OBJECTS_COUNT + 1)
    );
    while vm.heap.alloc_ptrs_old(CLASS_ARRAY, 4, num(0)).is_some() {}
    assert!(matches!(vm.write_image(), Err(VmError::OutOfMemory)));
}

/// The same work in slices of different lengths ends the same.
#[test]
fn slices_add_up() {
    let run = |slice: u64| {
        let mut vm = Vm::bare_test();
        let method = MethodBuilder::new(0, 6)
            .insns(vec![
                Insn::LoadInt { d: 1, imm: 0 },
                Insn::LoadInt { d: 2, imm: 100 },
                Insn::LoadInt { d: 3, imm: 1 },
                Insn::Add { d: 1, a: 1, b: 3 },
                Insn::Lt { d: 4, a: 1, b: 2 },
                Insn::JumpTrue { a: 4, off: -3 },
                Insn::Ret { a: 1 },
            ])
            .build(&mut vm);
        let process = vm.spawn_process(method, vm.nil(), &[]).unwrap();
        let mut run = vm.start(process);
        let mut slices = 0;
        loop {
            slices += 1;
            match vm.resume(&mut run, slice).unwrap() {
                RunExit::Done(v) => return (v.as_int(), slices),
                RunExit::Turns => {}
                _ => panic!("nothing to wait for"),
            }
        }
    };
    let (whole, one) = run(1_000_000);
    let (cut, many) = run(7);
    assert_eq!((whole, cut), (100, 100));
    assert_eq!(one, 1);
    assert!(many > 10);
}

#[test]
fn hashes_and_symbols_are_stable() {
    let mut vm = Vm::bare_test();
    let a = vm.make_array(&[]).unwrap();
    let b = vm.make_array(&[]).unwrap();
    let h = vm.identity_hash_of(a);
    assert_ne!(h, 0);
    assert_ne!(vm.identity_hash_of(b), h);
    assert_eq!(vm.identity_hash_of(a), h);
    assert_eq!(vm.identity_hash_of(num(-4)), -4);
    let s = vm.intern("once");
    assert_eq!(vm.intern("once"), s);
    assert_ne!(vm.intern("twice"), s);
}

#[test]
fn the_barrier_remembers_once() {
    let mut vm = Vm::bare_test();
    let old = vm.heap.alloc_ptrs_old(CLASS_ARRAY, 2, num(0)).unwrap();
    let young = vm.make_array(&[]).unwrap();
    vm.store_slot(old, 0, num(1));
    assert!(!vm.heap.ssb.contains(&old));
    vm.store_slot(old, 0, young);
    vm.store_slot(old, 1, young);
    assert_eq!(vm.heap.ssb.iter().filter(|&&o| o == old).count(), 1);
    assert!(vm.heap.header(old).gc_bits() & GC_BIT_REMEMBERED != 0);
}

#[test]
fn lookups_agree_through_the_cache() {
    let mut vm = Vm::bare_test();
    let sel = vm.intern("cached");
    let class = vm.class_table_at(CLASS_SMALLINTEGER);
    assert_eq!(vm.lookup_cached(CLASS_SMALLINTEGER, sel), None);
    let build = |vm: &mut Vm, n: i16| {
        MethodBuilder::new(0, 4)
            .insns(vec![Insn::LoadInt { d: 1, imm: n }, Insn::Ret { a: 1 }])
            .build(vm)
    };
    let first = build(&mut vm, 1);
    vm.install_method(class, sel, first).unwrap();
    assert_eq!(vm.lookup_cached(CLASS_SMALLINTEGER, sel), Some(first));
    assert_eq!(vm.lookup_cached(CLASS_SMALLINTEGER, sel), Some(first));
    let second = build(&mut vm, 2);
    vm.install_method(class, sel, second).unwrap();
    assert_eq!(vm.lookup_method(CLASS_SMALLINTEGER, sel), Some(second));
    assert_eq!(vm.lookup_cached(CLASS_SMALLINTEGER, sel), Some(second));
}

/// Waiters of a semaphore are woken in the order they came, and signals
/// without waiters are kept.
#[test]
fn waiters_are_first_in_first_out() {
    let mut vm = Vm::bare_test();
    let sem = vm.make_semaphore_old();
    vm.semaphore_signal_internal(sem);
    vm.semaphore_signal_internal(sem);
    assert_eq!(vm.heap.slot(sem.as_ptr(), SEMAPHORE_EXCESS_SIGNALS), num(2));
    assert_eq!(vm.heap.slot(sem.as_ptr(), SEMAPHORE_QUEUE_HEAD), vm.nil());

    let method = MethodBuilder::new(0, 4)
        .insns(vec![Insn::LoadInt { d: 1, imm: 1 }, Insn::Ret { a: 1 }])
        .build(&mut vm);
    let mut processes = Vec::new();
    for _ in 0..3 {
        let p = vm.spawn_process(method, vm.nil(), &[]).unwrap();
        vm.temp_roots.push(p);
        processes.push(p);
    }
    for &p in &processes {
        vm.make_runnable(p);
    }
    let nil = vm.nil();
    assert_eq!(vm.heap.slot(processes[0].as_ptr(), PROCESS_NEXT_LINK), processes[1]);
    assert_eq!(vm.heap.slot(processes[1].as_ptr(), PROCESS_NEXT_LINK), processes[2]);
    assert_eq!(vm.heap.slot(processes[2].as_ptr(), PROCESS_NEXT_LINK), nil);
    assert!(vm.heap.slot(processes[0].as_ptr(), PROCESS_PRIORITY).is_int());
}

#[test]
fn due_timers_fire_and_are_gone() {
    let mut vm = Vm::bare_test();
    let sem = vm.make_semaphore_old();
    vm.timer_times.push(5);
    vm.timer_sems.push(sem);
    vm.timer_times.push(50);
    vm.timer_sems.push(sem);
    vm.now_ns = 10_000_000;
    assert!(vm.service_timers());
    assert_eq!(vm.timer_times, vec![50]);
    assert_eq!(vm.timer_sems, vec![sem]);
    assert_eq!(vm.heap.slot(sem.as_ptr(), SEMAPHORE_EXCESS_SIGNALS), num(1));
    assert!(!vm.service_timers());
}

#[test]
fn division_is_floored() {
    assert_eq!(floored_divmod(7, 2), (3, 1));
    assert_eq!(floored_divmod(-7, 2), (-4, 1));
    assert_eq!(floored_divmod(7, -2), (-4, -1));
    assert_eq!(floored_divmod(-7, -2), (3, -1));
}

#[test]
fn png_has_the_known_bytes() {
    assert_eq!(crc32(b"123456789"), 0xCBF4_3926);
    assert_eq!(crc32(b""), 0);
    let png = encode_rgb(2, 1, &[1, 2, 3, 4, 5, 6]);
    assert_eq!(
        png,
        vec![
            137, 80, 78, 71, 13, 10, 26, 10, 0, 0, 0, 13, 73, 72, 68, 82, 0, 0, 0, 2, 0, 0, 0, 1,
            8, 2, 0, 0, 0, 123, 64, 232, 221, 0, 0, 0, 18, 73, 68, 65, 84, 120, 1, 1, 7, 0, 248,
            255, 0, 1, 2, 3, 4, 5, 6, 0, 63, 0, 22, 104, 65, 95, 141, 0, 0, 0, 0, 73, 69, 78, 68,
            174, 66, 96, 130,
        ]
    );
}

/// Strings are built character by character; the constants come out in
/// camel case.
#[test]
fn the_treaty_is_written_for_the_image() {
    let s = treaty_st_source();
    assert!(s.contains("classArray"));
    assert!(s.contains(&CLASS_ARRAY.to_string()));
    assert!(s.lines().count() > 100);
    assert!(s.starts_with(
        "\"GENERATED from treaty.json by `cargo run --bin gen_treaty_st` — DO NOT EDIT.\nThe Treaty \
         (SPEC Appendix A): the binary contract between the VM and the\ncompiler. One class-side \
         method per constant.\"\n\nObject subclass: #Treaty\n"
    ));
}

/// Bytes that are not text are shown with replacement characters.
#[test]
fn names_are_shown_as_text() {
    let mut vm = Vm::bare_test();
    let sel = vm.intern_bytes(&[b'a', 0xff, b'b']);
    let method = MethodBuilder::new(0, 8)
        .insns(vec![
            Insn::LoadInt { d: 5, imm: 3 },
            Insn::Send { d: 1, r: 5, site: 0 },
            Insn::Ret { a: 1 },
        ])
        .site(sel, 0)
        .build(&mut vm);
    match vm.call(method, num(0), &[]) {
        Err(VmError::Fatal(m)) => assert!(m.contains("a\u{fffd}b"), "{m}"),
        other => panic!("understood: {}", other.is_ok()),
    }
}

/// A pause is measured by the clock.
#[test]
fn pauses_are_measured() {
    let mut vm = Vm::bare_test();
    for i in 0..2000 {
        let a = vm.make_array(&[num(i); 20]).unwrap();
        vm.temp_roots.push(a);
    }
    for _ in 0..3 {
        vm.collect_young().unwrap();
    }
    vm.collect_old().unwrap();
    assert!(vm.counters.scavenge_ns > 0);
    assert!(vm.counters.compact_ns > 0);
    assert!(vm.counters.scavenge_ns < 20_000_000_000);
}

/// What a method's header says is read back.
#[test]
fn method_headers_are_read_back() {
    let mut vm = Vm::bare_test();
    let m = MethodBuilder::new(2, 9)
        .insns(vec![Insn::RetSelf])
        .primitive(PRIM_INT_ADD)
        .handler_slot_base(6)
        .build(&mut vm);
    assert_eq!(vm.method_argc(m), 2);
    assert_eq!(vm.method_frame_slots(m), 9);
    assert_eq!(vm.method_primitive(m), Some(PRIM_INT_ADD));
    assert_eq!(vm.method_handler_slot_base(m), 6);
    let plain = MethodBuilder::new(0, 4).insns(vec![Insn::RetSelf]).build(&mut vm);
    assert_eq!(vm.method_primitive(plain), None);
}

/// An installed method is found in its class, and the class's other methods
/// stay.
#[test]
fn installed_methods_are_found_and_others_stay() {
    let mut vm = Vm::bare_test();
    let class = vm.class_table_at(CLASS_SMALLINTEGER);
    let mut made = Vec::new();
    for (k, name) in ["first", "second", "third", "first"].iter().enumerate() {
        let sel = vm.intern(name);
        let m = MethodBuilder::new(0, 4)
            .insns(vec![Insn::LoadInt { d: 1, imm: k as i16 }, Insn::Ret { a: 1 }])
            .build(&mut vm);
        vm.install_method(class, sel, m).unwrap();
        made.retain(|&(s, _)| s != sel);
        made.push((sel, m));
        for &(s, m) in &made {
            assert_eq!(vm.lookup_method(CLASS_SMALLINTEGER, s), Some(m));
        }
    }
    assert_eq!(made.len(), 3);
}

/// Old objects keep their order in a compaction, and close up.
#[test]
fn compaction_keeps_the_order() {
    let mut vm = Vm::bare_test();
    let mut kept = Vec::new();
    for k in 0..6i64 {
        let a = vm.heap.alloc_ptrs_old(CLASS_ARRAY, 2, num(k)).unwrap();
        if k % 2 == 0 {
            kept.push(Value::from_ptr(a));
        }
    }
    for &v in &kept {
        vm.temp_roots.push(v);
    }
    vm.collect_old().unwrap();
    let n = vm.temp_roots.len();
    let now: Vec<Value> = vm.temp_roots[n - 3..].to_vec();
    for k in 0..3 {
        assert_eq!(vm.heap.slot(now[k].as_ptr(), 0), num(2 * k as i64));
        assert!(now[k].as_ptr() <= kept[k].as_ptr());
    }
    assert!(now[0].as_ptr() < now[1].as_ptr() && now[1].as_ptr() < now[2].as_ptr());
    assert!(now[2].as_ptr() < kept[2].as_ptr());
}

/// A flush leaves no send site with a method that it remembers.
#[test]
fn flushed_sites_are_empty() {
    let mut vm = Vm::bare_test();
    let sel = vm.intern("flushMe");
    let class = vm.class_table_at(CLASS_SMALLINTEGER);
    let callee = MethodBuilder::new(0, 4).insns(vec![Insn::RetSelf]).build(&mut vm);
    vm.install_method(class, sel, callee).unwrap();
    let caller = MethodBuilder::new(0, 10)
        .insns(vec![
            Insn::LoadInt { d: 5, imm: 3 },
            Insn::Send { d: 1, r: 5, site: 0 },
            Insn::Ret { a: 1 },
        ])
        .site_named(&mut vm, "flushMe", 0)
        .build(&mut vm);
    let top = vm.intern("top");
    vm.install_method(class, top, caller).unwrap();
    assert_eq!(vm.call(caller, num(0), &[]).unwrap(), num(3));
    let sites = vm.heap.slot(caller.as_ptr(), METHOD_SEND_SITES).as_ptr();
    assert_eq!(vm.heap.slot(sites, SITE_CACHE_CLASS), num(CLASS_SMALLINTEGER as i64));
    assert_eq!(vm.heap.slot(sites, SITE_CACHE_METHOD), callee);
    vm.flush_caches();
    let nil = vm.nil();
    assert_eq!(vm.heap.slot(sites, SITE_CACHE_CLASS), num(0));
    assert_eq!(vm.heap.slot(sites, SITE_CACHE_METHOD), nil);
}

/// After a scavenge exactly the old objects that point young are listed and
/// flagged, each once.
#[test]
fn a_scavenge_remembers_what_points_young() {
    let mut vm = Vm::bare_test();
    let mut old = Vec::new();
    for _ in 0..6 {
        old.push(vm.heap.alloc_ptrs_old(CLASS_ARRAY, 3, num(0)).unwrap());
    }
    let young = vm.make_array(&[num(1)]).unwrap();
    for &o in &old {
        vm.store_slot(o, 0, young);
        vm.store_slot(o, 2, young);
    }
    for &o in &old[3..] {
        vm.store_slot(o, 0, num(0));
        vm.store_slot(o, 2, num(0));
    }
    vm.collect_young().unwrap();
    for (k, &o) in old.iter().enumerate() {
        let listed = vm.heap.ssb.iter().filter(|&&a| a == o).count();
        let flagged = vm.heap.header(o).gc_bits() & GC_BIT_REMEMBERED != 0;
        assert_eq!((listed, flagged), if k < 3 { (1, true) } else { (0, false) });
    }
}

/// Compacted old space holds its objects one behind the other.
#[test]
fn compaction_leaves_no_gaps() {
    let mut vm = Vm::bare_test();
    for k in 0..40 {
        let a = vm.heap.alloc_ptrs_old(CLASS_ARRAY, k % 7, num(0)).unwrap();
        if k % 3 == 0 {
            vm.temp_roots.push(Value::from_ptr(a));
        }
    }
    let before = vm.heap.old.used_bytes();
    vm.collect_old().unwrap();
    let objects = vm.heap.walk_region(vm.heap.old.base(), vm.heap.old.top()).unwrap();
    let sum: usize = objects.iter().map(|&o| vm.heap.footprint(o)).sum();
    assert_eq!(vm.heap.old.used_bytes(), sum);
    assert!(sum < before);
}

/// A walk gives the objects of a region in the order they were made.
#[test]
fn walks_find_what_was_allocated() {
    let mut heap = Heap::new(HeapConfig::default());
    let mut made = Vec::new();
    let mut young = Vec::new();
    for k in 0..30 {
        made.push(heap.alloc_ptrs_old(CLASS_ARRAY, 20 * k, num(0)).unwrap());
        made.push(heap.alloc_bytes_old(CLASS_BYTESTRING, k).unwrap());
        young.push(heap.alloc_bytes(CLASS_BYTESTRING, 100 * k).unwrap());
        young.push(heap.alloc_ptrs(CLASS_ARRAY, k, num(0)).unwrap());
    }
    assert_eq!(heap.walk_region(heap.old.base(), heap.old.top()), Some(made));
    assert_eq!(heap.walk_region(heap.young_from.base(), heap.young_from.top()), Some(young));
}

#[test]
fn names_tell_constants_and_opcodes_apart() {
    let all = all_constants();
    for (i, a) in all.iter().enumerate() {
        for b in &all[..i] {
            assert_ne!(a.1, b.1);
        }
    }
    let mut named = 0;
    for op in 0..=255u8 {
        assert_eq!(opcode_name(op).is_some(), Insn::decode(op as u32).is_some());
        if let Some(n) = opcode_name(op) {
            named += 1;
            assert!(all.contains(&("opcodes", n, op as u64)));
        }
    }
    assert_eq!(all.iter().filter(|c| c.0 == "opcodes").count(), named);
    assert!(all.contains(&("tags", "TAG_INT_BIT", 1)));
    assert!(all.contains(&("header", "HDR_CLASS_SHIFT", 42)));
    assert!(all.contains(&("opcodes", "IDEQ", 0x45)));
    assert!(all.contains(&("image_header", "IMG_MAGIC", 0x4D49_5453)));
}

/// A failed run leaves as many temporary roots as there were.
#[test]
fn failed_runs_drop_their_roots() {
    let mut vm = Vm::bare_test();
    let kept = vm.make_array(&[num(4)]).unwrap();
    vm.temp_roots.push(kept);
    let method = MethodBuilder::new(0, 8)
        .insns(vec![
            Insn::LoadInt { d: 5, imm: 3 },
            Insn::Send { d: 1, r: 5, site: 0 },
            Insn::Ret { a: 1 },
        ])
        .site_named(&mut vm, "notThere", 0)
        .build(&mut vm);
    let process = vm.spawn_process(method, vm.nil(), &[]).unwrap();
    let roots = vm.temp_roots.len();
    assert!(vm.run(process).is_err());
    assert_eq!(vm.temp_roots.len(), roots);
    assert_eq!(vm.heap.slot(vm.temp_roots[roots - 1].as_ptr(), 0), num(4));
}

/// Why an image could not be saved is told.
#[test]
fn refused_saves_tell_their_cause() {
    let mut vm = Vm::bare_test();
    let class = vm.class_table_at(CLASS_SMALLINTEGER);
    let callee = MethodBuilder::new(0, 4).insns(vec![Insn::RetSelf]).build(&mut vm);
    let sel = vm.intern("again");
    vm.install_method(class, sel, callee).unwrap();
    let caller = MethodBuilder::new(0, 10)
        .insns(vec![
            Insn::LoadInt { d: 5, imm: 3 },
            Insn::Send { d: 1, r: 5, site: 0 },
            Insn::LoadInt { d: 5, imm: 3 },
            Insn::Send { d: 1, r: 5, site: 0 },
            Insn::Ret { a: 1 },
        ])
        .site_named(&mut vm, "again", 0)
        .build(&mut vm);
    vm.snapshot_after_sends = Some((1, "later.im".to_string()));
    let process = vm.spawn_process(caller, vm.nil(), &[]).unwrap();
    let mut run = vm.start(process);
    assert!(matches!(vm.resume(&mut run, 1_000_000), Ok(RunExit::Host)));
    assert!(matches!(vm.host_request(), Some(HostRequest::SaveImage { .. })));
    match vm.reply(&mut run, HostReply::Refused("no such directory".to_string())) {
        Err(VmError::Fatal(m)) => assert_eq!(m, "image write failed: no such directory"),
        _ => panic!("saved"),
    }
}

/// A new machine, and one that an image gave, can be collected at once and
/// again.
#[test]
fn new_machines_can_be_collected() {
    let mut vm = Vm::bare_test();
    let method = MethodBuilder::new(0, 4).insns(vec![Insn::RetSelf]).build(&mut vm);
    vm.active_process = vm.spawn_process(method, num(6), &[]).unwrap();
    for _ in 0..4 {
        vm.collect_young().unwrap();
        vm.collect_old().unwrap();
    }
    assert_eq!(vm.heap.young_from.used_bytes(), 0);
    let data = vm.write_image().unwrap();
    let mut back = Vm::load_image(&data, VmConfig::default()).unwrap();
    for _ in 0..2 {
        back.collect_young().unwrap();
        back.collect_old().unwrap();
    }
    let active = back.active_process;
    assert_eq!(back.run(active).unwrap(), num(6));
}

/// A loaded machine knows the symbols and the send sites that its image
/// holds, where they now lie.
#[test]
fn images_give_the_tables_back() {
    let mut vm = Vm::bare_test();
    let sel = vm.intern("kept:with:");
    let method = MethodBuilder::new(0, 8)
        .insns(vec![
            Insn::LoadInt { d: 5, imm: 3 },
            Insn::Send { d: 1, r: 5, site: 0 },
            Insn::Ret { a: 1 },
        ])
        .site_named(&mut vm, "kept:with:", 0)
        .build(&mut vm);
    let class = vm.class_table_at(CLASS_SMALLINTEGER);
    vm.install_method(class, sel, method).unwrap();
    vm.active_process = vm.spawn_process(method, num(1), &[]).unwrap();
    while vm.heap.young_from.used_bytes() != 0 {
        vm.collect_old().unwrap();
    }
    let data = vm.write_image().unwrap();
    let mut back = Vm::load_image(&data, VmConfig::default()).unwrap();
    let (from, to) = (vm.heap.old.base(), back.heap.old.base());
    let moved = |v: Value| Value::from_ptr(v.as_ptr() - from + to);
    assert_eq!(back.symbols.len(), vm.symbols.len());
    for (name, &symbol) in vm.symbol_names.iter().zip(&vm.symbols) {
        assert_eq!(back.intern_bytes(name), moved(symbol));
    }
    assert_eq!(back.symbols.len(), vm.symbols.len());
    let class = vm.class_table_at(CLASS_SMALLINTEGER);
    let sel = vm.intern("kept:with:");
    let method = vm.lookup_method(CLASS_SMALLINTEGER, sel).unwrap();
    let sites = vm.heap.slot(method.as_ptr(), METHOD_SEND_SITES);
    assert!(back.site_registry.contains(&moved(sites)));
    assert_eq!(back.class_table_at(CLASS_SMALLINTEGER), moved(class));
}

fn answer(vm: &mut Vm) -> Value {
    let method = MethodBuilder::new(0, 4)
        .insns(vec![Insn::LoadInt { d: 1, imm: 42 }, Insn::Ret { a: 1 }])
        .build(vm);
    vm.call(method, vm.nil(), &[]).unwrap()
}

/// A run that outgrows its stack leaves its process active, with the stack
/// it had, and the machine fit for other work.
#[test]
fn outgrown_stacks_stop_the_run_only() {
    let mut vm = Vm::bare_test();
    let class = vm.class_table_at(CLASS_SMALLINTEGER);
    let sel = vm.intern("forever");
    let method = MethodBuilder::new(0, 7)
        .insns(vec![
            Insn::LoadSelf { d: 4 },
            Insn::Send { d: 1, r: 4, site: 0 },
            Insn::Ret { a: 1 },
        ])
        .site_named(&mut vm, "forever", 0)
        .build(&mut vm);
    vm.install_method(class, sel, method).unwrap();
    vm.max_stack_bytes = 64 * 1024;
    let process = vm.spawn_process(method, num(3), &[]).unwrap();
    vm.temp_roots.push(process);
    assert!(matches!(vm.run(process), Err(VmError::StackOverflow)));
    assert_eq!(vm.temp_roots.len(), 1);
    let process = vm.temp_roots.pop().unwrap();
    assert_eq!(vm.active_process, process);
    let stack = vm.heap.slot(process.as_ptr(), PROCESS_STACK);
    assert_eq!(vm.heap.num_slots(stack.as_ptr()), 8192);
    assert_eq!(vm.stack_grow_count, 4);
    assert_eq!(answer(&mut vm), num(42));
}

/// An object that is too large is refused after both collections (the second
/// one scavenges too), which the machine keeps.
#[test]
fn failed_allocations_leave_a_collected_machine() {
    let mut vm = Vm::bare_test();
    let root = knot(&mut vm);
    vm.temp_roots.push(root);
    let method = MethodBuilder::new(1, 4)
        .primitive(PRIM_NEW_SIZED)
        .insns(vec![Insn::Ret { a: 2 }])
        .build(&mut vm);
    let arrays = vm.class_table_at(CLASS_ARRAY);
    let process = vm.spawn_process(method, arrays, &[num(1 << 40)]).unwrap();
    let (s, c) = (vm.scavenge_count, vm.compact_count);
    assert!(matches!(vm.run(process), Err(VmError::OutOfMemory)));
    assert_eq!((vm.scavenge_count, vm.compact_count), (s + 2, c + 1));
    assert_eq!(vm.temp_roots.len(), 1);
    check_knot(&vm, vm.temp_roots[0]);
    assert_eq!(answer(&mut vm), num(42));
}

/// A method that finds no room in its class's dictionary is counted, and
/// the dictionary stays.
#[test]
fn failed_installs_leave_the_dictionary() {
    let mut vm = Vm::bare_test();
    let method = MethodBuilder::new(0, 4).insns(vec![Insn::RetSelf]).build(&mut vm);
    let sel = vm.intern("late");
    let class = vm.class_table_at(CLASS_SMALLINTEGER);
    for n in [1000, 10, 0] {
        while vm.heap.alloc_ptrs_old(CLASS_ARRAY, n, num(0)).is_some() {}
    }
    let installs = vm.counters.method_installs;
    assert!(matches!(vm.install_method(class, sel, method), Err(VmError::OutOfMemory)));
    assert_eq!(vm.counters.method_installs, installs + 1);
    assert_eq!(vm.lookup_method(CLASS_SMALLINTEGER, sel), None);
}

/// A send site remembers the method that a search finds, wherever the
/// collectors move it, until a flush.
#[test]
fn filled_sites_agree_with_the_search() {
    let mut vm = Vm::bare_test();
    let class = vm.class_table_at(CLASS_SMALLINTEGER);
    // Old garbage, so that a compaction moves what comes after it.
    vm.heap.alloc_ptrs_old(CLASS_ARRAY, 100, num(0)).unwrap();
    let sel = vm.intern("agreed");
    let callee = MethodBuilder::new(0, 4).insns(vec![Insn::RetSelf]).build(&mut vm);
    vm.install_method(class, sel, callee).unwrap();
    let caller = MethodBuilder::new(0, 10)
        .insns(vec![
            Insn::LoadInt { d: 5, imm: 8 },
            Insn::Send { d: 1, r: 5, site: 0 },
            Insn::Ret { a: 1 },
        ])
        .site_named(&mut vm, "agreed", 0)
        .build(&mut vm);
    let top = vm.intern("agreedTop");
    vm.install_method(class, top, caller).unwrap();
    assert_eq!(vm.call(caller, num(0), &[]).unwrap(), num(8));
    for k in 0..6 {
        if k % 3 == 2 {
            vm.collect_old().unwrap();
        } else {
            vm.collect_young().unwrap();
        }
        let (sel, top) = (vm.intern("agreed"), vm.intern("agreedTop"));
        let now = vm.lookup_method(CLASS_SMALLINTEGER, top).unwrap();
        let sites = vm.heap.slot(now.as_ptr(), METHOD_SEND_SITES).as_ptr();
        let found = vm.lookup_method(CLASS_SMALLINTEGER, sel);
        assert_eq!(vm.heap.slot(sites, SITE_CACHE_CLASS), num(CLASS_SMALLINTEGER as i64));
        assert_eq!(Some(vm.heap.slot(sites, SITE_CACHE_METHOD)), found);
    }
    let (sel, top) = (vm.intern("agreed"), vm.intern("agreedTop"));
    assert_ne!(vm.lookup_method(CLASS_SMALLINTEGER, sel), Some(callee), "it was moved");
    let class = vm.class_table_at(CLASS_SMALLINTEGER);
    let other = MethodBuilder::new(0, 4).insns(vec![Insn::RetSelf]).build(&mut vm);
    vm.install_method(class, sel, other).unwrap();
    let now = vm.lookup_method(CLASS_SMALLINTEGER, top).unwrap();
    let sites = vm.heap.slot(now.as_ptr(), METHOD_SEND_SITES).as_ptr();
    assert_eq!(vm.heap.slot(sites, SITE_CACHE_CLASS), num(0));
    assert_eq!(vm.heap.slot(sites, SITE_CACHE_METHOD), vm.nil());
}

/// Collections leave as much behind as if what nothing reaches had never
/// been made.
#[test]
fn what_nothing_reaches_is_dropped() {
    let made = |garbage: bool| {
        let mut vm = Vm::bare_test();
        if garbage {
            vm.heap.alloc_ptrs_old(CLASS_ARRAY, 30, num(0)).unwrap();
        }
        let root = knot(&mut vm);
        vm.temp_roots.push(root);
        if garbage {
            for _ in 0..20 {
                knot(&mut vm);
            }
        }
        vm.collect_young().unwrap();
        let young = vm.heap.young_from.used_bytes();
        vm.collect_old().unwrap();
        check_knot(&vm, *vm.temp_roots.last().unwrap());
        (young, vm.heap.young_from.used_bytes(), vm.heap.old.used_bytes())
    };
    assert_eq!(made(true), made(false));
}

/// A machine that ran, on a stack that it outgrew, can be collected, and runs
/// on.
#[test]
fn machines_that_ran_can_be_collected() {
    let mut vm = Vm::bare_test();
    let class = vm.class_table_at(CLASS_SMALLINTEGER);
    let sel = vm.intern("down");
    // down ^ self = 0 ifTrue: [5] ifFalse: [(self - 1) down], with a box on
    // the way.
    let method = MethodBuilder::new(0, 10)
        .insns(vec![
            Insn::LoadInt { d: 1, imm: 0 },
            Insn::EqNum { d: 2, a: 0, b: 1 },
            Insn::JumpFalse { a: 2, off: 2 },
            Insn::LoadInt { d: 1, imm: 5 },
            Insn::Ret { a: 1 },
            Insn::MkBox { d: 3, a: 0 },
            Insn::LoadInt { d: 1, imm: 1 },
            Insn::Sub { d: 5, a: 0, b: 1 },
            Insn::Send { d: 1, r: 5, site: 0 },
            Insn::Ret { a: 1 },
        ])
        .site_named(&mut vm, "down", 0)
        .build(&mut vm);
    vm.install_method(class, sel, method).unwrap();
    for n in [3i64, 2000, 3] {
        let sel = vm.intern("down");
        let method = vm.lookup_method(CLASS_SMALLINTEGER, sel).unwrap();
        assert_eq!(vm.call(method, num(n), &[]).unwrap(), num(5));
        vm.collect_young().unwrap();
        vm.collect_old().unwrap();
    }
    assert!(vm.stack_grow_count > 0);
}
