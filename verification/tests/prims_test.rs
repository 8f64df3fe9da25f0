//! Every primitive succeeds fully or fails into its fallback body.

use smallishtalk::assembler::Insn::{
    Add, GetBox, JumpTrue, LoadInt, LoadK, LoadNil, LoadSelf, Lt, MkClosure, Ret, RetSelf, Send,
    Sub,
};
use smallishtalk::fixture::MethodBuilder;
use smallishtalk::requests::{HostReply, HostRequest};
use smallishtalk::run::RunExit;
use smallishtalk::treaty::{
    BEHAVIOR_CLASS_INDEX, BEHAVIOR_FORMAT_AND_SLOTS, BEHAVIOR_METHOD_DICTIONARY,
    BEHAVIOR_NUM_VM_SLOTS, BEHAVIOR_SUPERCLASS, CLASS_ARRAY, CLASS_BLOCKCLOSURE, CLASS_BOX,
    CLASS_BYTEARRAY, CLASS_BYTESTRING, CLASS_CLASS, CLASS_FLOAT, CLASS_METHODDICTIONARY,
    CLASS_OBJECT, CLASS_PROCESS, CLASS_SMALLINTEGER, FIRST_UNRESERVED_CLASS_INDEX, FMT_FIXED,
    FORMAT_AND_SLOTS_FORMAT_SHIFT, MDICT_KEYS, MDICT_VALUES, METHOD_CLASS, METHOD_SELECTOR,
    PRIM_AT, PRIM_AT_PUT, PRIM_BLOCK_VALUE_ARGS, PRIM_CLASS, PRIM_CLOCK_MONOTONIC_MS,
    PRIM_CLOCK_WALL_MS, PRIM_FILE_CLOSE, PRIM_FILE_DELETE, PRIM_FILE_OPEN, PRIM_FILE_POSITION,
    PRIM_FILE_READ, PRIM_FILE_SET_POSITION, PRIM_FILE_SIZE, PRIM_FILE_WRITE, PRIM_FLOAT_ADD,
    PRIM_FLOAT_DIV, PRIM_FLOAT_EQ, PRIM_FLOAT_GE, PRIM_FLOAT_GT, PRIM_FLOAT_LE, PRIM_FLOAT_LT,
    PRIM_FLOAT_MUL, PRIM_FLOAT_SQRT, PRIM_FLOAT_SUB, PRIM_FLOAT_TRUNCATED, PRIM_FRAME_INFO,
    PRIM_IDENTICAL, PRIM_IDENTITY_HASH,
    PRIM_INST_VAR_AT, PRIM_INST_VAR_AT_PUT, PRIM_INT_ADD, PRIM_INT_AS_FLOAT, PRIM_INT_BIT_AND,
    PRIM_INT_BIT_OR, PRIM_INT_BIT_SHIFT, PRIM_INT_BIT_XOR, PRIM_INT_DIV, PRIM_INT_EQ,
    PRIM_INT_GE, PRIM_INT_GT, PRIM_INT_LE, PRIM_INT_LT, PRIM_INT_MOD, PRIM_INT_MUL,
    PRIM_INT_QUO, PRIM_INT_SUB, PRIM_METHOD_INSTALL, PRIM_NEW, PRIM_NEW_SIZED,
    PRIM_PERFORM_WITH_ARGS, PRIM_REGISTER_CLASS, PRIM_SIZE, PRIM_STDIO_WRITE, PRIM_TRANSFER_TO,
    PROCESS_FRAME_OFFSET, PROCESS_PC,
};
use smallishtalk::value::{Value, SMALLINT_MAX};
use smallishtalk::vm::Vm;
use std::time::{SystemTime, UNIX_EPOCH};

fn num(n: i64) -> Value {
    Value::from_int(n)
}

/// A host in memory: files by path, and floating point.
struct MemoryHost {
    files: Vec<(String, Vec<u8>)>,
    /// Path and position of each open descriptor.
    open: Vec<Option<(String, usize)>>,
    /// The time: a millisecond passes with each look at it.
    ms: i64,
}

impl MemoryHost {
    fn new() -> MemoryHost {
        MemoryHost { files: Vec::new(), open: Vec::new(), ms: 0 }
    }

    fn data(&mut self, path: &str) -> Option<&mut Vec<u8>> {
        self.files.iter_mut().find(|(p, _)| p == path).map(|(_, d)| d)
    }

    fn open_file(&mut self, path: &str, mode: i64, fd: usize) -> HostReply {
        if self.data(path).is_none() {
            if mode == 0 {
                return HostReply::Failed;
            }
            self.files.push((path.to_string(), Vec::new()));
        }
        if mode == 1 {
            self.data(path).unwrap().clear();
        }
        while self.open.len() <= fd {
            self.open.push(None);
        }
        self.open[fd] = Some((path.to_string(), 0));
        HostReply::Done
    }

    fn answer(&mut self, request: &HostRequest) -> HostReply {
        match request {
            HostRequest::FileOpen { path, mode, fd } => self.open_file(path, *mode, *fd),
            HostRequest::FileClose { fd } => {
                self.open[*fd] = None;
                HostReply::Done
            }
            HostRequest::FileRead { fd, count } => {
                let (path, pos) = self.open[*fd].clone().unwrap();
                let data = self.data(&path).unwrap();
                let end = data.len().min(pos + *count as usize);
                let out = data[pos..end].to_vec();
                self.open[*fd] = Some((path, end));
                HostReply::Bytes(out)
            }
            HostRequest::FileWrite { fd, data } => {
                let (path, pos) = self.open[*fd].clone().unwrap();
                let file = self.data(&path).unwrap();
                file.truncate(pos);
                file.extend_from_slice(data);
                let end = file.len();
                self.open[*fd] = Some((path, end));
                HostReply::Done
            }
            HostRequest::FilePosition { fd } => {
                HostReply::Number(self.open[*fd].as_ref().unwrap().1 as i64)
            }
            HostRequest::FileSetPosition { fd, pos } => {
                self.open[*fd].as_mut().unwrap().1 = *pos as usize;
                HostReply::Number(*pos as i64)
            }
            HostRequest::FileSize { fd } => {
                let path = self.open[*fd].as_ref().unwrap().0.clone();
                HostReply::Number(self.data(&path).unwrap().len() as i64)
            }
            HostRequest::FileDelete { path } => {
                let n = self.files.len();
                self.files.retain(|(p, _)| p != path);
                if self.files.len() < n {
                    HostReply::Done
                } else {
                    HostReply::Failed
                }
            }
            HostRequest::StdioWrite { .. } => HostReply::Done,
            HostRequest::StdioRead { .. } => HostReply::Bytes(b"typed".to_vec()),
            HostRequest::SaveImage { path, image } => {
                self.files.push((path.clone(), image.clone()));
                HostReply::Done
            }
            HostRequest::MonotonicMs => {
                self.ms += 1;
                HostReply::Number(self.ms)
            }
            HostRequest::WallMs => HostReply::Number(
                SystemTime::now().duration_since(UNIX_EPOCH).unwrap().as_millis() as i64,
            ),
            HostRequest::IntAsFloat { n } => HostReply::Bits((*n as f64).to_bits()),
            HostRequest::Float { prim, x, y } => {
                let (x, y) = (f64::from_bits(*x), f64::from_bits(*y));
                match *prim {
                    PRIM_FLOAT_ADD => HostReply::Bits((x + y).to_bits()),
                    PRIM_FLOAT_SUB => HostReply::Bits((x - y).to_bits()),
                    PRIM_FLOAT_MUL => HostReply::Bits((x * y).to_bits()),
                    PRIM_FLOAT_DIV => HostReply::Bits((x / y).to_bits()),
                    PRIM_FLOAT_LT => HostReply::Truth(x < y),
                    PRIM_FLOAT_GT => HostReply::Truth(x > y),
                    PRIM_FLOAT_LE => HostReply::Truth(x <= y),
                    PRIM_FLOAT_GE => HostReply::Truth(x >= y),
                    PRIM_FLOAT_EQ => HostReply::Truth(x == y),
                    PRIM_FLOAT_SQRT => HostReply::Bits(x.sqrt().to_bits()),
                    PRIM_FLOAT_TRUNCATED => HostReply::Number(x.trunc() as i64),
                    _ => HostReply::Failed,
                }
            }
        }
    }
}

/// Run a process to its end, answering what it asks of the host.
fn drive(vm: &mut Vm, host: &mut MemoryHost, process: Value) -> Value {
    let mut run = vm.start(process);
    loop {
        match vm.resume(&mut run, 1_000_000).unwrap() {
            RunExit::Done(v) => return v,
            RunExit::Host => {
                let reply = host.answer(vm.host_request().unwrap());
                vm.reply(&mut run, reply).unwrap();
            }
            RunExit::Wait => vm.now_ns += 1_000_000,
            RunExit::Turns => {}
        }
    }
}

/// Install `selector` on `class` as primitive `prim`; the fallback body
/// answers the (positive) failure code.
fn install_prim(vm: &mut Vm, class: Value, selector: &str, prim: u16, argc: u8) {
    let m = MethodBuilder::new(argc, argc + 3)
        .primitive(prim)
        .insns(vec![Ret { a: argc + 1 }]) // the failure-code slot
        .build(vm);
    let sel = vm.intern(selector);
    vm.install_method(class, sel, m).unwrap();
}

/// Evaluate `recv sel: args...` via a fresh one-shot method.
fn send(vm: &mut Vm, sel: &str, recv: Value, args: &[Value]) -> Value {
    let mut host = MemoryHost::new();
    send_with(vm, &mut host, sel, recv, args)
}

/// As [`send`], on a host that keeps its files.
fn send_with(
    vm: &mut Vm,
    host: &mut MemoryHost,
    sel: &str,
    recv: Value,
    args: &[Value],
) -> Value {
    let mut lits = vec![recv];
    lits.extend_from_slice(args);
    let mut insns = vec![LoadK { d: 4, k: 0 }];
    for i in 0..args.len() {
        insns.push(LoadK {
            d: (5 + i) as u8,
            k: (1 + i) as u16,
        });
    }
    insns.push(Send { d: 1, r: 4, site: 0 });
    insns.push(Ret { a: 1 });
    let m = MethodBuilder::new(0, (7 + args.len()) as u8)
        .insns(insns)
        .literals(lits)
        .site_named(vm, sel, args.len() as u8)
        .build(vm);
    let process = vm.spawn_process(m, vm.nil(), &[]).unwrap();
    drive(vm, host, process)
}

fn object_class(vm: &Vm) -> Value {
    vm.class_table_at(CLASS_OBJECT)
}

// --- Object essentials ---

#[test]
fn prim_class_and_identity() {
    let mut vm = Vm::bare_test();
    let obj_cls = object_class(&vm);
    install_prim(&mut vm, obj_cls, "class", PRIM_CLASS, 0);
    install_prim(&mut vm, obj_cls, "==", PRIM_IDENTICAL, 1);
    install_prim(&mut vm, obj_cls, "identityHash", PRIM_IDENTITY_HASH, 0);

    assert_eq!(
        send(&mut vm, "class", num(5), &[]),
        vm.class_table_at(CLASS_SMALLINTEGER)
    );
    let s = vm.make_string("x").unwrap();
    assert_eq!(send(&mut vm, "class", s, &[]), vm.class_table_at(CLASS_BYTESTRING));

    let t = vm.true_v();
    assert_eq!(send(&mut vm, "==", t, &[t]), vm.true_v());
    let f = vm.false_v();
    assert_eq!(send(&mut vm, "==", t, &[f]), vm.false_v());

    // SmallIntegers hash as their value; objects get a stable nonzero hash.
    assert_eq!(send(&mut vm, "identityHash", num(1234), &[]), num(1234));
    let arr = vm.make_array(&[]).unwrap();
    let h1 = send(&mut vm, "identityHash", arr, &[]);
    let h2 = send(&mut vm, "identityHash", arr, &[]);
    assert_eq!(h1, h2);
    assert!(h1.as_int() > 0);
}

#[test]
fn prim_new_and_new_sized() {
    let mut vm = Vm::bare_test();
    let obj_cls = object_class(&vm);
    install_prim(&mut vm, obj_cls, "new", PRIM_NEW, 0);
    install_prim(&mut vm, obj_cls, "new:", PRIM_NEW_SIZED, 1);

    let point = vm.new_test_class(FMT_FIXED, 2);
    let inst = send(&mut vm, "new", point, &[]);
    assert!(inst.is_ptr());
    assert_eq!(vm.class_of(inst), point);
    assert_eq!(vm.heap.slot(inst.as_ptr(), 0), vm.nil());

    let arr_cls = vm.class_table_at(CLASS_ARRAY);
    let arr = send(&mut vm, "new:", arr_cls, &[num(5)]);
    assert_eq!(vm.heap.num_slots(arr.as_ptr()), 5);
    assert_eq!(vm.class_of(arr), arr_cls);

    let ba_cls = vm.class_table_at(CLASS_BYTEARRAY);
    let ba = send(&mut vm, "new:", ba_cls, &[num(9)]);
    assert_eq!(vm.heap.byte_size(ba.as_ptr()), 9);

    // new on an indexable class fails cleanly (code > 0).
    let r = send(&mut vm, "new", arr_cls, &[]);
    assert!(r.is_int() && r.as_int() > 0, "expected failure code, got {r:?}");
}

#[test]
fn prim_at_family() {
    let mut vm = Vm::bare_test();
    let obj_cls = object_class(&vm);
    install_prim(&mut vm, obj_cls, "basicAt:", PRIM_AT, 1);
    install_prim(&mut vm, obj_cls, "basicAt:put:", PRIM_AT_PUT, 2);
    install_prim(&mut vm, obj_cls, "basicSize", PRIM_SIZE, 0);

    let arr = vm.make_array(&[num(10), num(20)]).unwrap();
    assert_eq!(send(&mut vm, "basicAt:", arr, &[num(2)]), num(20));
    assert_eq!(send(&mut vm, "basicAt:put:", arr, &[num(1), num(99)]), num(99));
    assert_eq!(vm.heap.slot(arr.as_ptr(), 0), num(99));
    assert_eq!(send(&mut vm, "basicSize", arr, &[]), num(2));

    // Out of bounds / immutable / wrong receiver → clean failures.
    assert!(send(&mut vm, "basicAt:", arr, &[num(3)]).as_int() > 0);
    assert!(send(&mut vm, "basicAt:", num(5), &[num(1)]).as_int() > 0);
    vm.heap.set_immutable(arr.as_ptr());
    assert!(send(&mut vm, "basicAt:put:", arr, &[num(1), num(5)]).as_int() > 0);

    let s = vm.make_string("hé").unwrap();
    assert_eq!(send(&mut vm, "basicSize", s, &[]), num(3), "UTF-8 bytes");
    assert_eq!(send(&mut vm, "basicAt:", s, &[num(1)]), num('h' as i64));
}

#[test]
fn prim_inst_var_access() {
    let mut vm = Vm::bare_test();
    let obj_cls = object_class(&vm);
    install_prim(&mut vm, obj_cls, "instVarAt:", PRIM_INST_VAR_AT, 1);
    install_prim(&mut vm, obj_cls, "instVarAt:put:", PRIM_INST_VAR_AT_PUT, 2);

    let point = vm.new_test_class(FMT_FIXED, 2);
    let p = vm.make_instance(point).unwrap();
    assert_eq!(send(&mut vm, "instVarAt:put:", p, &[num(1), num(7)]), num(7));
    assert_eq!(send(&mut vm, "instVarAt:", p, &[num(1)]), num(7));
    assert_eq!(vm.heap.slot(p.as_ptr(), 0), num(7));
    assert!(send(&mut vm, "instVarAt:", p, &[num(3)]).as_int() > 0);
}

#[test]
fn prim_perform_with_arguments() {
    let mut vm = Vm::bare_test();
    let obj_cls = object_class(&vm);
    install_prim(&mut vm, obj_cls, "perform:withArguments:", PRIM_PERFORM_WITH_ARGS, 2);

    let class = vm.new_test_class(FMT_FIXED, 0);
    let sel = vm.intern("sum:and:");
    let m = MethodBuilder::new(2, 4)
        .insns(vec![Add { d: 3, a: 1, b: 2 }, Ret { a: 3 }])
        .build(&mut vm);
    vm.install_method(class, sel, m).unwrap();

    let obj = vm.make_instance(class).unwrap();
    let sel_v = vm.intern("sum:and:");
    let args = vm.make_array(&[num(30), num(12)]).unwrap();
    assert_eq!(
        send(&mut vm, "perform:withArguments:", obj, &[sel_v, args]),
        num(42)
    );
}

// --- SmallInteger arithmetic ---

#[test]
fn prim_int_arithmetic() {
    let mut vm = Vm::bare_test();
    let si = vm.class_table_at(CLASS_SMALLINTEGER);
    for (sel, prim) in [
        ("p+", PRIM_INT_ADD),
        ("p-", PRIM_INT_SUB),
        ("p*", PRIM_INT_MUL),
        ("p//", PRIM_INT_DIV),
        ("p\\\\", PRIM_INT_MOD),
        ("pquo:", PRIM_INT_QUO),
        ("pbitAnd:", PRIM_INT_BIT_AND),
        ("pbitOr:", PRIM_INT_BIT_OR),
        ("pbitXor:", PRIM_INT_BIT_XOR),
        ("pbitShift:", PRIM_INT_BIT_SHIFT),
    ] {
        install_prim(&mut vm, si, sel, prim, 1);
    }
    assert_eq!(send(&mut vm, "p+", num(3), &[num(4)]), num(7));
    assert_eq!(send(&mut vm, "p-", num(3), &[num(4)]), num(-1));
    assert_eq!(send(&mut vm, "p*", num(-6), &[num(7)]), num(-42));
    assert_eq!(send(&mut vm, "p//", num(-7), &[num(2)]), num(-4), "floored");
    assert_eq!(send(&mut vm, "p\\\\", num(-7), &[num(2)]), num(1), "floored");
    assert_eq!(send(&mut vm, "pquo:", num(-7), &[num(2)]), num(-3), "truncated");
    assert_eq!(send(&mut vm, "pbitAnd:", num(12), &[num(10)]), num(8));
    assert_eq!(send(&mut vm, "pbitOr:", num(12), &[num(10)]), num(14));
    assert_eq!(send(&mut vm, "pbitXor:", num(12), &[num(10)]), num(6));
    assert_eq!(send(&mut vm, "pbitShift:", num(3), &[num(4)]), num(48));
    assert_eq!(send(&mut vm, "pbitShift:", num(-16), &[num(-2)]), num(-4));

    // Overflow, div-by-zero, wrong type: clean failures.
    assert!(send(&mut vm, "p+", num(SMALLINT_MAX), &[num(1)]).as_int() > 0);
    assert!(send(&mut vm, "p//", num(1), &[num(0)]).as_int() > 0);
    let s = vm.make_string("x").unwrap();
    assert!(send(&mut vm, "p+", num(1), &[s]).as_int() > 0);
}

#[test]
fn prim_int_comparisons() {
    let mut vm = Vm::bare_test();
    let si = vm.class_table_at(CLASS_SMALLINTEGER);
    for (sel, prim) in [
        ("p<", PRIM_INT_LT),
        ("p>", PRIM_INT_GT),
        ("p<=", PRIM_INT_LE),
        ("p>=", PRIM_INT_GE),
        ("p=", PRIM_INT_EQ),
    ] {
        install_prim(&mut vm, si, sel, prim, 1);
    }
    let t = vm.true_v();
    let f = vm.false_v();
    assert_eq!(send(&mut vm, "p<", num(1), &[num(2)]), t);
    assert_eq!(send(&mut vm, "p>", num(1), &[num(2)]), f);
    assert_eq!(send(&mut vm, "p<=", num(2), &[num(2)]), t);
    assert_eq!(send(&mut vm, "p>=", num(1), &[num(2)]), f);
    assert_eq!(send(&mut vm, "p=", num(2), &[num(2)]), t);
}

// --- Float ---

#[test]
fn prim_float_arithmetic() {
    let mut vm = Vm::bare_test();
    let si = vm.class_table_at(CLASS_SMALLINTEGER);
    let fc = vm.class_table_at(CLASS_FLOAT);
    install_prim(&mut vm, si, "asFloat", PRIM_INT_AS_FLOAT, 0);
    for (sel, prim) in [
        ("f+", PRIM_FLOAT_ADD),
        ("f-", PRIM_FLOAT_SUB),
        ("f*", PRIM_FLOAT_MUL),
        ("f/", PRIM_FLOAT_DIV),
        ("f<", PRIM_FLOAT_LT),
        ("f=", PRIM_FLOAT_EQ),
    ] {
        install_prim(&mut vm, fc, sel, prim, 1);
    }
    install_prim(&mut vm, fc, "truncated", PRIM_FLOAT_TRUNCATED, 0);
    install_prim(&mut vm, fc, "sqrt", PRIM_FLOAT_SQRT, 0);

    let three = send(&mut vm, "asFloat", num(3), &[]);
    assert!(three.is_ptr());
    assert_eq!(vm.heap.header(three.as_ptr()).class_index(), CLASS_FLOAT);
    assert_eq!(f64::from_bits(vm.float_value(three)), 3.0);

    let half = vm.make_float(0.5f64.to_bits()).unwrap();
    let sum = send(&mut vm, "f+", three, &[half]);
    assert_eq!(f64::from_bits(vm.float_value(sum)), 3.5);
    let diff = send(&mut vm, "f-", three, &[half]);
    assert_eq!(f64::from_bits(vm.float_value(diff)), 2.5);
    let prod = send(&mut vm, "f*", three, &[half]);
    assert_eq!(f64::from_bits(vm.float_value(prod)), 1.5);
    let quot = send(&mut vm, "f/", three, &[half]);
    assert_eq!(f64::from_bits(vm.float_value(quot)), 6.0);

    assert_eq!(send(&mut vm, "f<", half, &[three]), vm.true_v());
    let three2 = vm.make_float(3.0f64.to_bits()).unwrap();
    assert_eq!(send(&mut vm, "f=", three, &[three2]), vm.true_v());

    assert_eq!(send(&mut vm, "truncated", quot, &[]), num(6));
    let nine = vm.make_float(9.0f64.to_bits()).unwrap();
    let root = send(&mut vm, "sqrt", nine, &[]);
    assert_eq!(f64::from_bits(vm.float_value(root)), 3.0);
}

#[test]
fn floats_are_compared_by_the_host() {
    let mut vm = Vm::bare_test();
    let fc = vm.class_table_at(CLASS_FLOAT);
    let prims = [PRIM_FLOAT_LT, PRIM_FLOAT_GT, PRIM_FLOAT_LE, PRIM_FLOAT_GE, PRIM_FLOAT_EQ];
    for (k, prim) in prims.iter().enumerate() {
        install_prim(&mut vm, fc, ["f<", "f>", "f<=", "f>=", "f="][k], *prim, 1);
    }
    let one = vm.make_float(1.0f64.to_bits()).unwrap();
    let two = vm.make_float(2.0f64.to_bits()).unwrap();
    vm.temp_roots.push(one);
    vm.temp_roots.push(two);
    for (sel, less, equal, more) in [
        ("f<", true, false, false),
        ("f>", false, false, true),
        ("f<=", true, true, false),
        ("f>=", false, true, true),
        ("f=", false, true, false),
    ] {
        for (a, b, expected) in [(one, two, less), (one, one, equal), (two, one, more)] {
            let truth = if expected { vm.true_v() } else { vm.false_v() };
            assert_eq!(send(&mut vm, sel, a, &[b]), truth, "{sel}");
        }
    }
}

// --- valueWithArguments: ---

#[test]
fn prim_value_with_arguments() {
    let mut vm = Vm::bare_test();
    let bc = vm.class_table_at(CLASS_BLOCKCLOSURE);
    install_prim(&mut vm, bc, "valueWithArguments:", PRIM_BLOCK_VALUE_ARGS, 1);

    let nil = vm.nil();
    let blk = MethodBuilder::new(2, 4)
        .insns(vec![Sub { d: 3, a: 1, b: 2 }, Ret { a: 3 }])
        .build_block(&mut vm, nil, 0, false);
    let mk = MethodBuilder::new(0, 6)
        .insns(vec![MkClosure { d: 4, b: 0 }, Ret { a: 4 }])
        .literals(vec![blk])
        .build(&mut vm);
    let closure = vm.call(mk, vm.nil(), &[]).unwrap();

    let args = vm.make_array(&[num(50), num(8)]).unwrap();
    assert_eq!(
        send(&mut vm, "valueWithArguments:", closure, &[args]),
        num(42)
    );
    // Wrong count fails cleanly.
    let bad = vm.make_array(&[num(1)]).unwrap();
    assert!(send(&mut vm, "valueWithArguments:", closure, &[bad]).as_int() > 0);
}

// --- Clocks ---

#[test]
fn prim_clocks() {
    let mut vm = Vm::bare_test();
    let nil = vm.nil();
    let obj_cls = object_class(&vm);
    install_prim(&mut vm, obj_cls, "monoMs", PRIM_CLOCK_MONOTONIC_MS, 0);
    install_prim(&mut vm, obj_cls, "wallMs", PRIM_CLOCK_WALL_MS, 0);

    let t1 = send(&mut vm, "monoMs", nil, &[]);
    let t2 = send(&mut vm, "monoMs", nil, &[]);
    assert!(t1.is_int() && t2.is_int() && t2.as_int() >= t1.as_int());

    let w = send(&mut vm, "wallMs", nil, &[]);
    // Sanity: after 2020-01-01 (in ms).
    assert!(w.as_int() > 1_577_836_800_000);
}

/// A method that looks at the clock until ten milliseconds have passed ends:
/// each look is a reading of its own.
#[test]
fn the_clock_is_read_at_each_call() {
    let mut vm = Vm::bare_test();
    let nil = vm.nil();
    let obj_cls = object_class(&vm);
    install_prim(&mut vm, obj_cls, "monoMs", PRIM_CLOCK_MONOTONIC_MS, 0);
    let method = MethodBuilder::new(0, 12)
        .insns(vec![
            LoadNil { d: 8 },
            Send { d: 1, r: 8, site: 0 },
            LoadInt { d: 2, imm: 10 },
            Lt { d: 3, a: 1, b: 2 },
            JumpTrue { a: 3, off: -5 },
            Ret { a: 1 },
        ])
        .site_named(&mut vm, "monoMs", 0)
        .build(&mut vm);
    let process = vm.spawn_process(method, nil, &[]).unwrap();
    let mut host = MemoryHost::new();
    assert_eq!(drive(&mut vm, &mut host, process), num(10));
    assert_eq!(host.ms, 10);
}

// --- stdio and files ---

#[test]
fn prim_stdio_write_captures() {
    let mut vm = Vm::bare_test();
    let nil = vm.nil();
    let obj_cls = object_class(&vm);
    install_prim(&mut vm, obj_cls, "stdioWrite:on:", PRIM_STDIO_WRITE, 2);

    let s = vm.make_string("hello, world").unwrap();
    let n = send(&mut vm, "stdioWrite:on:", nil, &[s, num(1)]);
    assert_eq!(n, num(12));
    assert_eq!(vm.stdout_capture, b"hello, world");
}

#[test]
fn prim_file_roundtrip() {
    let mut vm = Vm::bare_test();
    let nil = vm.nil();
    let obj_cls = object_class(&vm);
    install_prim(&mut vm, obj_cls, "fopen:mode:", PRIM_FILE_OPEN, 2);
    install_prim(&mut vm, obj_cls, "fclose:", PRIM_FILE_CLOSE, 1);
    install_prim(&mut vm, obj_cls, "fread:count:", PRIM_FILE_READ, 2);
    install_prim(&mut vm, obj_cls, "fwrite:bytes:", PRIM_FILE_WRITE, 2);
    install_prim(&mut vm, obj_cls, "fpos:", PRIM_FILE_POSITION, 1);
    install_prim(&mut vm, obj_cls, "fsetpos:to:", PRIM_FILE_SET_POSITION, 2);
    install_prim(&mut vm, obj_cls, "fsize:", PRIM_FILE_SIZE, 1);
    install_prim(&mut vm, obj_cls, "fdelete:", PRIM_FILE_DELETE, 1);

    let mut host = MemoryHost::new();
    let path = "prim_file_roundtrip.bin";
    let path_v = vm.make_string(path).unwrap();

    // mode 1 = write (create/truncate)
    let fd = send_with(&mut vm, &mut host, "fopen:mode:", nil, &[path_v, num(1)]);
    assert!(fd.is_int() && fd.as_int() >= 0);
    let data = vm.make_string("smalltalk bytes").unwrap();
    let n = send_with(&mut vm, &mut host, "fwrite:bytes:", nil, &[fd, data]);
    assert_eq!(n, num(15));
    assert_eq!(send_with(&mut vm, &mut host, "fpos:", nil, &[fd]), num(15));
    assert_eq!(send_with(&mut vm, &mut host, "fclose:", nil, &[fd]), vm.nil());

    // mode 0 = read
    let path_v = vm.make_string(path).unwrap();
    let fd = send_with(&mut vm, &mut host, "fopen:mode:", nil, &[path_v, num(0)]);
    assert_eq!(send_with(&mut vm, &mut host, "fsize:", nil, &[fd]), num(15));
    send_with(&mut vm, &mut host, "fsetpos:to:", nil, &[fd, num(10)]);
    let tail = send_with(&mut vm, &mut host, "fread:count:", nil, &[fd, num(100)]);
    assert!(tail.is_ptr());
    assert_eq!(vm.heap.bytes(tail.as_ptr()), b"bytes");
    send_with(&mut vm, &mut host, "fclose:", nil, &[fd]);

    let path_v = vm.make_string(path).unwrap();
    assert_eq!(send_with(&mut vm, &mut host, "fdelete:", nil, &[path_v]), vm.nil());
    assert!(host.data(path).is_none());
}

// --- System ---

#[test]
fn prim_register_class_and_method_install() {
    let mut vm = Vm::bare_test();
    let obj_cls = object_class(&vm);
    install_prim(&mut vm, obj_cls, "registerClass", PRIM_REGISTER_CLASS, 0);
    install_prim(&mut vm, obj_cls, "install:as:", PRIM_METHOD_INSTALL, 2);

    // Build a raw class object (as the image-side compiler would).
    let nil = vm.nil();
    let object = vm.class_table_at(CLASS_OBJECT);
    let raw = vm
        .heap
        .alloc_fixed_old(CLASS_CLASS, BEHAVIOR_NUM_VM_SLOTS, nil)
        .unwrap();
    vm.heap.set_slot_raw(raw, BEHAVIOR_SUPERCLASS, object);
    let mdict = vm.make_instance(vm.class_table_at(CLASS_METHODDICTIONARY));
    let mdict = mdict.unwrap();
    let empty = vm.make_array(&[]).unwrap();
    vm.store_slot(mdict.as_ptr(), MDICT_KEYS, empty);
    let empty2 = vm.make_array(&[]).unwrap();
    vm.store_slot(mdict.as_ptr(), MDICT_VALUES, empty2);
    vm.store_slot(raw, BEHAVIOR_METHOD_DICTIONARY, mdict);
    vm.heap.set_slot_raw(
        raw,
        BEHAVIOR_FORMAT_AND_SLOTS,
        num((FMT_FIXED as i64) << FORMAT_AND_SLOTS_FORMAT_SHIFT | 1),
    );
    let class = Value::from_ptr(raw);

    let idx = send(&mut vm, "registerClass", class, &[]);
    assert!(idx.as_int() >= FIRST_UNRESERVED_CLASS_INDEX as i64);
    assert_eq!(vm.class_table_at(idx.as_int() as u32), class);
    assert_eq!(
        vm.heap.slot(raw, BEHAVIOR_CLASS_INDEX),
        idx,
        "index stamped into slot 3"
    );

    // Install a method via the primitive and call it.
    let m = MethodBuilder::new(0, 2)
        .insns(vec![LoadInt { d: 1, imm: 31 }, Ret { a: 1 }])
        .build(&mut vm);
    let sel = vm.intern("answer");
    send(&mut vm, "install:as:", class, &[sel, m]);

    let inst = vm.make_instance(class).unwrap();
    assert_eq!(send(&mut vm, "answer", inst, &[]), num(31));
    assert_eq!(vm.heap.slot(m.as_ptr(), METHOD_SELECTOR), sel);
    assert_eq!(vm.heap.slot(m.as_ptr(), METHOD_CLASS), class);
}

/// resume pc of frames below the top (recovered from callee returnInfo).
#[test]
fn prim_frame_info_decodes_suspended_frames() {
    let mut vm = Vm::bare_test();
    let obj_cls = object_class(&vm);
    install_prim(&mut vm, obj_cls, "frameInfo:at:", PRIM_FRAME_INFO, 2);
    let proc_cls = vm.class_table_at(CLASS_PROCESS);
    install_prim(&mut vm, proc_cls, "transferTo:", PRIM_TRANSFER_TO, 1);

    // Worker: method A sends #b to self; B transfers back to main, leaving
    // the worker suspended with two frames.
    let class = vm.new_test_class(FMT_FIXED, 0);
    let main_box = vm.make_instance(vm.class_table_at(CLASS_BOX)).unwrap();
    let b = MethodBuilder::new(0, 8)
        .insns(vec![
            LoadK { d: 1, k: 0 },
            GetBox { d: 4, a: 1 },
            LoadNil { d: 5 },
            Send { d: 2, r: 4, site: 0 }, // transfer back to main
            RetSelf,
        ])
        .literals(vec![main_box])
        .site_named(&mut vm, "transferTo:", 1)
        .build(&mut vm);
    let b_sel = vm.intern("b");
    vm.install_method(class, b_sel, b).unwrap();
    // Stage at r=8 so A's own receiver (slot 0) survives the send and can
    // be decoded afterwards.
    let a = MethodBuilder::new(0, 10)
        .insns(vec![
            LoadSelf { d: 8 },
            Send { d: 1, r: 8, site: 0 }, // resume pc = 2 after this send
            Ret { a: 1 },
        ])
        .site_named(&mut vm, "b", 0)
        .build(&mut vm);
    let recv = vm.make_instance(class).unwrap();
    let worker = vm.spawn_process(a, recv, &[]).unwrap();

    // Main: transfer to worker; it comes right back.
    let m_m = MethodBuilder::new(0, 8)
        .insns(vec![
            LoadK { d: 4, k: 0 },
            LoadNil { d: 5 },
            Send { d: 1, r: 4, site: 0 },
            LoadInt { d: 1, imm: 1 },
            Ret { a: 1 },
        ])
        .literals(vec![worker])
        .site_named(&mut vm, "transferTo:", 1)
        .build(&mut vm);
    let main = vm.spawn_process(m_m, vm.nil(), &[]).unwrap();
    vm.heap.set_slot_raw(main_box.as_ptr(), 0, main);
    vm.write_barrier(main_box.as_ptr(), main);
    assert_eq!(vm.run(main).unwrap(), num(1));

    // Worker is suspended inside B (called from A at base offset 1).
    let nil = vm.nil();
    let top_off = vm.heap.slot(worker.as_ptr(), PROCESS_FRAME_OFFSET);
    let info_b = send(&mut vm, "frameInfo:at:", nil, &[worker, top_off]);
    assert!(info_b.is_ptr());
    assert_eq!(vm.heap.slot(info_b.as_ptr(), 0), b, "top frame method is B");
    assert_eq!(
        vm.heap.slot(info_b.as_ptr(), 1),
        vm.heap.slot(worker.as_ptr(), PROCESS_PC),
        "top frame pc is the saved pc"
    );
    assert_eq!(vm.heap.slot(info_b.as_ptr(), 2), recv, "receiver decoded");

    let info_a = send(&mut vm, "frameInfo:at:", nil, &[worker, num(1)]);
    assert_eq!(vm.heap.slot(info_a.as_ptr(), 0), a, "base frame method is A");
    assert_eq!(
        vm.heap.slot(info_a.as_ptr(), 1),
        num(2),
        "A's resume pc recovered from B's returnInfo"
    );
    assert_eq!(vm.heap.slot(info_a.as_ptr(), 2), recv);
}
