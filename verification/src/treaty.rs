//! The binary contract between the machine and the image-side compiler:
//! every tag, layout, opcode, class index, slot index, primitive number and
//! limit that both sides agree on.

use vstd::prelude::*;
use vstd::string::*;

verus! {

// --- Tags ---
pub const TAG_INT_BIT: u64 = 0x1;
pub const TAG_PTR_MASK: u64 = 0x7;
pub const TAG_PTR: u64 = 0x0;
pub const TAG_FLOAT_IMM: u64 = 0x2; // reserved, never produced in v1
pub const SMALLINT_BITS: u32 = 63;

// --- Object header ---
pub const HDR_CLASS_SHIFT: u32 = 42;
pub const HDR_CLASS_BITS: u32 = 22;
pub const HDR_HASH_SHIFT: u32 = 20;
pub const HDR_HASH_BITS: u32 = 22;
pub const HDR_NSLOTS_SHIFT: u32 = 12;
pub const HDR_NSLOTS_BITS: u32 = 8;
pub const HDR_NSLOTS_OVERFLOW: u64 = 255;
pub const HDR_FORMAT_SHIFT: u32 = 8;
pub const HDR_FORMAT_BITS: u32 = 4;
pub const HDR_GC_SHIFT: u32 = 0;
pub const HDR_GC_BITS: u32 = 8;

pub const GC_BIT_MARK: u64 = 1;
pub const GC_BIT_REMEMBERED: u64 = 2;
pub const GC_BIT_PINNED: u64 = 4;
pub const GC_AGE_SHIFT: u32 = 3;
pub const GC_AGE_BITS: u32 = 3;
pub const GC_BIT_IMMUTABLE: u64 = 128; // Treaty: bit 7 of gcBits

// --- Formats ---
pub const FMT_FIXED: u64 = 0;
pub const FMT_PTRS: u64 = 1;
pub const FMT_BYTES_BASE: u64 = 8; // pad = format - 8 (0..7)

// --- Frame layout ---
pub const FRAME_CALLER: usize = 0;
pub const FRAME_RETINFO: usize = 1;
pub const FRAME_METHOD: usize = 2;
pub const FRAME_FLAGS: usize = 3;
pub const FRAME_RECEIVER: usize = 4;
pub const FRAME_FIXED: usize = 5;
pub const FLAG_HANDLER: u64 = 1;
pub const FLAG_ENSURE: u64 = 2;
pub const FLAG_BLOCKCTX: u64 = 4;
/// VM-internal: this block activation was pushed by the unwinder to run an
/// ensure block; on return, unwinding continues using the pending target/value
/// stored in the caller (ensure) frame's reserved slots.
pub const FLAG_UNWINDCONT: u64 = 8;
pub const SERIAL_SHIFT: u32 = 32;
// returnInfo (frame slot 1) packing: dest slot in low 8 bits, resume pc above.
pub const RETINFO_DEST_BITS: u32 = 8;
pub const RETINFO_PC_SHIFT: u32 = 8;

// --- Opcodes ---
pub const OP_NOP: u8 = 0x00;
pub const OP_BREAK: u8 = 0x01;
pub const OP_MOVE: u8 = 0x10;
pub const OP_LOADK: u8 = 0x11;
pub const OP_LOADINT: u8 = 0x12;
pub const OP_LOADNIL: u8 = 0x13;
pub const OP_LOADTRUE: u8 = 0x14;
pub const OP_LOADFALSE: u8 = 0x15;
pub const OP_LOADSELF: u8 = 0x16;
pub const OP_GETIVAR: u8 = 0x17;
pub const OP_SETIVAR: u8 = 0x18;
pub const OP_GETBOX: u8 = 0x19;
pub const OP_SETBOX: u8 = 0x1A;
pub const OP_MKBOX: u8 = 0x1B;
pub const OP_SEND: u8 = 0x20;
pub const OP_SENDSUPER: u8 = 0x21;
pub const OP_RET: u8 = 0x22;
pub const OP_RETSELF: u8 = 0x23;
pub const OP_NLR: u8 = 0x24;
pub const OP_PRIM: u8 = 0x25;
pub const OP_MKCLOSURE: u8 = 0x26;
pub const OP_CAPTURE: u8 = 0x27;
pub const OP_JUMP: u8 = 0x28;
pub const OP_JUMPTRUE: u8 = 0x29;
pub const OP_JUMPFALSE: u8 = 0x2A;
pub const OP_ADD: u8 = 0x30;
pub const OP_SUB: u8 = 0x31;
pub const OP_MUL: u8 = 0x32;
pub const OP_DIV: u8 = 0x33;
pub const OP_MOD: u8 = 0x34;
pub const OP_LT: u8 = 0x35;
pub const OP_GT: u8 = 0x36;
pub const OP_LE: u8 = 0x37;
pub const OP_GE: u8 = 0x38;
pub const OP_EQNUM: u8 = 0x39;
pub const OP_AT: u8 = 0x40;
pub const OP_ATPUT: u8 = 0x41;
pub const OP_SIZE: u8 = 0x42;
pub const OP_CLASSOF: u8 = 0x43;
pub const OP_NOT: u8 = 0x44;
pub const OP_IDEQ: u8 = 0x45;

// --- Treaty class indices ---
pub const CLASS_OBJECT: u32 = 1;
pub const CLASS_BEHAVIOR: u32 = 2;
pub const CLASS_CLASS: u32 = 3;
pub const CLASS_METACLASS: u32 = 4;
pub const CLASS_UNDEFINED_OBJECT: u32 = 5;
pub const CLASS_TRUE: u32 = 6;
pub const CLASS_FALSE: u32 = 7;
pub const CLASS_SMALLINTEGER: u32 = 8;
pub const CLASS_FLOAT: u32 = 9;
pub const CLASS_CHARACTER: u32 = 10;
pub const CLASS_STRING: u32 = 11;
pub const CLASS_BYTESTRING: u32 = 12;
pub const CLASS_SYMBOL: u32 = 13;
pub const CLASS_LARGE_POSITIVE_INTEGER: u32 = 14;
pub const CLASS_LARGE_NEGATIVE_INTEGER: u32 = 15;
pub const CLASS_ARRAY: u32 = 16;
pub const CLASS_BYTEARRAY: u32 = 17;
pub const CLASS_ORDERED_COLLECTION: u32 = 18;
pub const CLASS_ASSOCIATION: u32 = 19;
pub const CLASS_BOX: u32 = 20;
pub const CLASS_BLOCKCLOSURE: u32 = 21;
pub const CLASS_COMPILEDMETHOD: u32 = 22;
pub const CLASS_COMPILEDBLOCK: u32 = 23;
pub const CLASS_PROCESS: u32 = 24;
pub const CLASS_SEMAPHORE: u32 = 25;
pub const CLASS_METHODDICTIONARY: u32 = 26;
pub const CLASS_PROCESSOR_SCHEDULER: u32 = 27;
pub const CLASS_MESSAGE: u32 = 28;
pub const CLASS_SYSTEM_DICTIONARY: u32 = 29;
pub const CLASS_STACK: u32 = 30;
pub const CLASS_LINKED_LIST: u32 = 31;
pub const FIRST_UNRESERVED_CLASS_INDEX: u32 = 64;

// --- Stack object layout ---
// Slot 0 holds the owning Process (the GC needs the owner to compute the
// live frame extent); frames start at slot 1, so a callerFrameOffset of 0
// is an unambiguous "base frame" sentinel.
pub const STACK_OWNER: usize = 0;
pub const STACK_FRAMES_BASE: usize = 1;

// --- MethodDictionary layout ---
// Parallel keys/values Arrays, linear identity scan by the VM.
pub const MDICT_KEYS: usize = 0;
pub const MDICT_VALUES: usize = 1;
pub const MDICT_NUM_VM_SLOTS: usize = 2;

// --- Run-queue linked list ---
pub const LIST_HEAD: usize = 0;
pub const LIST_TAIL: usize = 1;
pub const LIST_NUM_VM_SLOTS: usize = 2;

// --- Handler / ensure reserved frame slots, relative to the method
// header's handlerSlotBase (a bytecode slot index) ---
pub const HANDLER_SLOT_CLASS: usize = 0;
pub const HANDLER_SLOT_BLOCK: usize = 1;
pub const HANDLER_SLOT_STATE: usize = 2;
pub const HANDLER_STATE_ARMED: i64 = 1;
pub const HANDLER_STATE_IN_PROGRESS: i64 = 2;
pub const ENSURE_SLOT_BLOCK: usize = 0;
pub const ENSURE_SLOT_PENDING_TARGET: usize = 1;
pub const ENSURE_SLOT_PENDING_SERIAL: usize = 2;
pub const ENSURE_SLOT_PENDING_VALUE: usize = 3;

// --- Indices into the specializedSelectors array ---
pub const SPECSEL_PLUS: usize = 0;
pub const SPECSEL_MINUS: usize = 1;
pub const SPECSEL_TIMES: usize = 2;
pub const SPECSEL_INT_DIV: usize = 3;
pub const SPECSEL_MOD: usize = 4;
pub const SPECSEL_LT: usize = 5;
pub const SPECSEL_GT: usize = 6;
pub const SPECSEL_LE: usize = 7;
pub const SPECSEL_GE: usize = 8;
pub const SPECSEL_EQ: usize = 9;
pub const SPECSEL_IDENTICAL: usize = 10;
pub const SPECSEL_AT: usize = 11;
pub const SPECSEL_AT_PUT: usize = 12;
pub const SPECSEL_SIZE: usize = 13;
pub const SPECSEL_CLASS: usize = 14;
pub const SPECSEL_NOT: usize = 15;
pub const SPECSEL_COUNT: usize = 16;

// --- Behavior slots ---
pub const BEHAVIOR_SUPERCLASS: usize = 0;
pub const BEHAVIOR_METHOD_DICTIONARY: usize = 1;
pub const BEHAVIOR_FORMAT_AND_SLOTS: usize = 2;
pub const BEHAVIOR_CLASS_INDEX: usize = 3;
pub const BEHAVIOR_NUM_VM_SLOTS: usize = 4;
// formatAndSlots (SmallInteger): instance format in high bits, named-slot count low.
pub const FORMAT_AND_SLOTS_FORMAT_SHIFT: u32 = 16;
pub const FORMAT_AND_SLOTS_NSLOTS_MASK: u64 = 0xFFFF;

// --- Process slots ---
pub const PROCESS_STACK: usize = 0;
pub const PROCESS_FRAME_OFFSET: usize = 1;
pub const PROCESS_PC: usize = 2;
pub const PROCESS_PRIORITY: usize = 3;
pub const PROCESS_NEXT_LINK: usize = 4;
pub const PROCESS_MY_LIST: usize = 5;
pub const PROCESS_SERIAL_COUNTER: usize = 6;
pub const PROCESS_NUM_VM_SLOTS: usize = 7;

// --- Semaphore slots ---
pub const SEMAPHORE_EXCESS_SIGNALS: usize = 0;
pub const SEMAPHORE_QUEUE_HEAD: usize = 1;
pub const SEMAPHORE_QUEUE_TAIL: usize = 2;
pub const SEMAPHORE_NUM_VM_SLOTS: usize = 3;

// --- ProcessorScheduler slots ---
pub const SCHEDULER_QUEUES: usize = 0;
pub const SCHEDULER_ACTIVE_PROCESS: usize = 1;
pub const SCHEDULER_NUM_VM_SLOTS: usize = 2;
pub const NUM_PRIORITIES: usize = 8;

// --- CompiledMethod / CompiledBlock slots ---
pub const METHOD_HEADER: usize = 0;
pub const METHOD_BYTECODES: usize = 1;
pub const METHOD_LITERALS: usize = 2;
pub const METHOD_SEND_SITES: usize = 3;
pub const METHOD_SELECTOR: usize = 4;
pub const METHOD_CLASS: usize = 5;
pub const METHOD_SOURCE_INFO: usize = 6;
pub const METHOD_NUM_SLOTS: usize = 7;

/// Tiering state of a method, after the slots above: see [`crate::jit`].
pub const METHOD_VMSTATE: usize = 7;

pub const BLOCK_HEADER: usize = 0;
pub const BLOCK_BYTECODES: usize = 1;
pub const BLOCK_LITERALS: usize = 2;
pub const BLOCK_SEND_SITES: usize = 3;
pub const BLOCK_OUTER_METHOD: usize = 4;
pub const BLOCK_INFO: usize = 5;
pub const BLOCK_NUM_SLOTS: usize = 6;
pub const BLOCK_PAD: usize = 6;
pub const BLOCK_VMSTATE: usize = 7;

// --- Method header packing ---
pub const MH_FRAME_SLOTS_SHIFT: u32 = 0;
pub const MH_FRAME_SLOTS_BITS: u32 = 8;
pub const MH_ARGC_SHIFT: u32 = 8;
pub const MH_ARGC_BITS: u32 = 4;
pub const MH_PRIMITIVE_SHIFT: u32 = 12;
pub const MH_PRIMITIVE_BITS: u32 = 12;
pub const MH_HAS_PRIMITIVE_SHIFT: u32 = 24;
pub const MH_HANDLER_SLOT_BASE_SHIFT: u32 = 25;
pub const MH_HANDLER_SLOT_BASE_BITS: u32 = 8;
pub const MH_FLAGS_SHIFT: u32 = 33;
pub const MH_FLAG_IS_HANDLER: u64 = 1;
pub const MH_FLAG_IS_ENSURE: u64 = 2;

// --- CompiledBlock blockInfo packing ---
pub const BI_NUM_CAPTURED_SHIFT: u32 = 0;
pub const BI_NUM_CAPTURED_BITS: u32 = 8;
pub const BI_HAS_NLR_SHIFT: u32 = 8;

// --- BlockClosure slots ---
pub const CLOSURE_COMPILED_BLOCK: usize = 0;
pub const CLOSURE_HOME_PROCESS: usize = 1;
pub const CLOSURE_HOME_OFFSET: usize = 2;
pub const CLOSURE_HOME_SERIAL: usize = 3;
pub const CLOSURE_CAPTURED_BASE: usize = 4;

// --- Send-site entry layout ---
pub const SITE_SELECTOR: usize = 0;
pub const SITE_ARGC: usize = 1;
pub const SITE_CACHE_CLASS: usize = 2;
pub const SITE_CACHE_METHOD: usize = 3;
pub const SITE_STATIC_CLASS: usize = 4;
pub const SITE_STRIDE: usize = 5;

// --- Special objects array ---
pub const SPECIAL_NIL: usize = 0;
pub const SPECIAL_TRUE: usize = 1;
pub const SPECIAL_FALSE: usize = 2;
pub const SPECIAL_SMALLTALK: usize = 3;
pub const SPECIAL_PROCESSOR: usize = 4;
pub const SPECIAL_CLASS_LIST: usize = 5;
pub const SPECIAL_SYMBOL_TABLE: usize = 6;
pub const SPECIAL_SPECIALIZED_SELECTORS: usize = 7;
pub const SPECIAL_SEL_DOES_NOT_UNDERSTAND: usize = 8;
pub const SPECIAL_SEL_MUST_BE_BOOLEAN: usize = 9;
pub const SPECIAL_TERMINATE_TRAMPOLINE: usize = 10;
pub const SPECIAL_LOW_SPACE_SEMAPHORE: usize = 11;
pub const SPECIAL_TIMER_SEMAPHORE: usize = 12;
pub const SPECIAL_OBJECTS_COUNT: usize = 13;

// --- Primitive numbers ---
pub const PRIM_CLASS: u16 = 1;
pub const PRIM_IDENTITY_HASH: u16 = 2;
pub const PRIM_IDENTICAL: u16 = 3;
pub const PRIM_NEW: u16 = 4;
pub const PRIM_NEW_SIZED: u16 = 5;
pub const PRIM_AT: u16 = 6;
pub const PRIM_AT_PUT: u16 = 7;
pub const PRIM_SIZE: u16 = 8;
pub const PRIM_INST_VAR_AT: u16 = 9;
pub const PRIM_INST_VAR_AT_PUT: u16 = 10;
pub const PRIM_PERFORM_WITH_ARGS: u16 = 11;
pub const PRIM_INT_ADD: u16 = 100;
pub const PRIM_INT_SUB: u16 = 101;
pub const PRIM_INT_MUL: u16 = 102;
pub const PRIM_INT_DIV: u16 = 103;
pub const PRIM_INT_MOD: u16 = 104;
pub const PRIM_INT_QUO: u16 = 105;
pub const PRIM_INT_LT: u16 = 106;
pub const PRIM_INT_GT: u16 = 107;
pub const PRIM_INT_LE: u16 = 108;
pub const PRIM_INT_GE: u16 = 109;
pub const PRIM_INT_EQ: u16 = 110;
pub const PRIM_INT_BIT_AND: u16 = 111;
pub const PRIM_INT_BIT_OR: u16 = 112;
pub const PRIM_INT_BIT_XOR: u16 = 113;
pub const PRIM_INT_BIT_SHIFT: u16 = 114;
pub const PRIM_INT_AS_FLOAT: u16 = 115;
pub const PRIM_FLOAT_ADD: u16 = 130;
pub const PRIM_FLOAT_SUB: u16 = 131;
pub const PRIM_FLOAT_MUL: u16 = 132;
pub const PRIM_FLOAT_DIV: u16 = 133;
pub const PRIM_FLOAT_LT: u16 = 134;
pub const PRIM_FLOAT_GT: u16 = 135;
pub const PRIM_FLOAT_LE: u16 = 136;
pub const PRIM_FLOAT_GE: u16 = 137;
pub const PRIM_FLOAT_EQ: u16 = 138;
pub const PRIM_FLOAT_TRUNCATED: u16 = 139;
pub const PRIM_FLOAT_SQRT: u16 = 140;
pub const PRIM_BLOCK_VALUE_0: u16 = 200;
pub const PRIM_BLOCK_VALUE_1: u16 = 201;
pub const PRIM_BLOCK_VALUE_2: u16 = 202;
pub const PRIM_BLOCK_VALUE_3: u16 = 203;
pub const PRIM_BLOCK_VALUE_4: u16 = 204;
pub const PRIM_BLOCK_VALUE_ARGS: u16 = 205;
pub const PRIM_TRANSFER_TO: u16 = 210;
pub const PRIM_SEMAPHORE_WAIT: u16 = 211;
pub const PRIM_SEMAPHORE_SIGNAL: u16 = 212;
pub const PRIM_YIELD: u16 = 213;
pub const PRIM_PROCESS_SUSPEND: u16 = 214;
pub const PRIM_PROCESS_RESUME: u16 = 215;
pub const PRIM_PROCESS_TERMINATE: u16 = 216;
pub const PRIM_FIND_HANDLER: u16 = 220;
pub const PRIM_UNWIND_TO: u16 = 221;
/// v1 helper prims for the in-image exception system: read a handler
/// frame's reserved slots, set its state, and capture the signal frame.
pub const PRIM_HANDLER_INFO: u16 = 222;
pub const PRIM_SET_HANDLER_STATE: u16 = 223;
pub const PRIM_SIGNAL_CONTEXT: u16 = 224;
pub const PRIM_FILE_OPEN: u16 = 300;
pub const PRIM_FILE_CLOSE: u16 = 301;
pub const PRIM_FILE_READ: u16 = 302;
pub const PRIM_FILE_WRITE: u16 = 303;
pub const PRIM_FILE_POSITION: u16 = 304;
pub const PRIM_FILE_SET_POSITION: u16 = 305;
pub const PRIM_FILE_SIZE: u16 = 306;
pub const PRIM_FILE_DELETE: u16 = 307;
pub const PRIM_STDIO_WRITE: u16 = 310;
pub const PRIM_STDIO_READ: u16 = 311;
pub const PRIM_CLOCK_MONOTONIC_MS: u16 = 320;
pub const PRIM_CLOCK_WALL_MS: u16 = 321;
pub const PRIM_SIGNAL_AT_MS: u16 = 322;
/// High-resolution monotonic clock for per-frame UI profiling.
/// Honors the virtual clock in headless/deterministic mode.
pub const PRIM_CLOCK_MONOTONIC_NS: u16 = 323;
pub const PRIM_NEXT_EVENT: u16 = 330;
pub const PRIM_PIXEL_BLIT: u16 = 331;
/// The BitBlt workhorse — the one drawing operation of the machine.
pub const PRIM_BITBLT: u16 = 332;
/// Save a Form to a PNG file — screenshots for operability.
pub const PRIM_SAVE_FORM: u16 = 333;
/// Push a scripted event onto the host queue — lets in-image tests drive
/// the event pipeline exactly as a real device would.
pub const PRIM_POST_EVENT: u16 = 334;
pub const PRIM_SNAPSHOT: u16 = 400;
pub const PRIM_REGISTER_CLASS: u16 = 401;
pub const PRIM_METHOD_INSTALL: u16 = 402;
pub const PRIM_FLUSH_CACHES: u16 = 403;
pub const PRIM_FRAME_INFO: u16 = 410;
/// Profiling band 420–439.
pub const PRIM_PROFILER_START: u16 = 420;
pub const PRIM_PROFILER_STOP: u16 = 421;
pub const PRIM_PROFILER_REPORT: u16 = 422;
/// Reserved for the tree report (v1.5); unimplemented, fails cleanly.
pub const PRIM_PROFILER_TREE: u16 = 423;
pub const PRIM_VM_COUNTERS: u16 = 424;
pub const PRIM_VM_COUNTERS_RESET: u16 = 425;
pub const PRIM_PROFILER_GATE: u16 = 426;
pub const PRIM_TABLE_SIZE: usize = 4096;

// --- Image header ---
pub const IMG_MAGIC_OFFSET: usize = 0;
pub const IMG_VERSION_OFFSET: usize = 4;
pub const IMG_FLAGS_OFFSET: usize = 8;
pub const IMG_SAVED_BASE_OFFSET: usize = 16;
pub const IMG_OLD_SPACE_SIZE_OFFSET: usize = 24;
pub const IMG_SPECIAL_OBJECTS_OFFSET: usize = 32;
pub const IMG_CLASS_LIST_OFFSET: usize = 40;
pub const IMG_ACTIVE_PROCESS_OFFSET: usize = 48;
pub const IMG_RESERVED_OFFSET: usize = 56;
pub const IMG_HEADER_SIZE: usize = 64;
pub const IMG_MAGIC: u32 = 0x4D495453; // "STIM" read little-endian

// --- Tiering state of a method: counter, flags, and handle plus one ---
pub const VMSTATE_COUNTER_BITS: u32 = 16;
pub const VMSTATE_QUEUED_SHIFT: u32 = 16;
pub const VMSTATE_COMPILED_SHIFT: u32 = 17;
pub const VMSTATE_DNC_SHIFT: u32 = 18;
pub const VMSTATE_HANDLE_SHIFT: u32 = 19;
pub const VMSTATE_HANDLE_BITS: u32 = 24;

// --- Compiled code ---
/// Where the code cache is placed while no host has placed it.
/// The slot after the special objects of an image, there once compiled code
/// is prepared for: the semaphore that compilation requests signal.
pub const SPECIAL_JIT_SEMAPHORE: usize = 13;
pub const JIT_BASE_DEFAULT: usize = 4096;
pub const JIT_CACHE_BYTES_DEFAULT: usize = 16777216;
pub const JIT_TIER_THRESHOLD_DEFAULT: i64 = 1000;
pub const JIT_QUEUE_CAPACITY: usize = 64;
pub const JIT_RETPOINT_NONE: u32 = 0xFFFF_FFFF;
pub const JIT_PATCH_CLASS: u8 = 1;
pub const JIT_PATCH_TARGET: u8 = 2;
pub const RETINFO_NO_SITE: u8 = 255;
pub const JITCTL_GET_THRESHOLD: i64 = 0;
pub const JITCTL_SET_THRESHOLD: i64 = 1;
pub const JITCTL_GET_ENABLED: i64 = 2;
pub const JITCTL_SET_ENABLED: i64 = 3;
pub const JITCTL_FLUSH_ALL: i64 = 4;
pub const JITCTL_GET_PROFILING_LEVEL: i64 = 5;
pub const JITCTL_SET_PROFILING_LEVEL: i64 = 6;

// --- Limits ---
pub const MAX_FRAME_SLOTS: usize = 255;
pub const MAX_METHOD_INSTRUCTIONS: usize = 65536;
pub const MAX_LITERALS: usize = 65536;
pub const MAX_SEND_SITES: usize = 255;
pub const LOOKUP_CACHE_SIZE: usize = 4096;
pub const INITIAL_STACK_BYTES: usize = 4096;
pub const DEFAULT_MAX_STACK_BYTES: usize = 16777216;
pub const YOUNG_SPACE_BYTES_DEFAULT: usize = 8388608;
pub const LARGE_OBJECT_BYTES: usize = 65536;
pub const TENURE_AGE: u64 = 4;

// ---------------------------------------------------------------------------
// The table of constants
// ---------------------------------------------------------------------------
/// A constant: its group, its name, and its value.
pub struct Constant {
    pub group: Seq<char>,
    pub name: Seq<char>,
    pub value: u64,
}

/// What a list of constants says.
pub open spec fn constant_views(v: Seq<(&'static str, &'static str, u64)>) -> Seq<Constant> {
    Seq::new(v.len(), |i: int| Constant { group: v[i].0@, name: v[i].1@, value: v[i].2 })
}

fn add_constant(
    v: &mut Vec<(&'static str, &'static str, u64)>,
    group: &'static str,
    name: &'static str,
    value: u64,
)
    ensures
        constant_views(final(v)@) == constant_views(old(v)@).push(
            Constant { group: group@, name: name@, value },
        ),
{
    v.push((group, name, value));
    assert(constant_views(v@) =~= constant_views(old(v)@).push(
        Constant { group: group@, name: name@, value },
    ));
}

#[verifier::opaque]
pub open spec fn tags_table(v: Seq<Constant>) -> Seq<Constant> {
    v.push(
        Constant { group: "tags"@, name: "TAG_INT_BIT"@, value: TAG_INT_BIT as u64 },
    ).push(
        Constant { group: "tags"@, name: "TAG_PTR_MASK"@, value: TAG_PTR_MASK as u64 },
    ).push(
        Constant { group: "tags"@, name: "TAG_PTR"@, value: TAG_PTR as u64 },
    ).push(
        Constant { group: "tags"@, name: "TAG_FLOAT_IMM"@, value: TAG_FLOAT_IMM as u64 },
    ).push(
        Constant { group: "tags"@, name: "SMALLINT_BITS"@, value: SMALLINT_BITS as u64 },
    )
}

fn add_tags_table(v: &mut Vec<(&'static str, &'static str, u64)>)
    ensures
        constant_views(final(v)@) == tags_table(constant_views(old(v)@)),
{
    reveal(tags_table);
    add_constant(v, "tags", "TAG_INT_BIT", TAG_INT_BIT);
    add_constant(v, "tags", "TAG_PTR_MASK", TAG_PTR_MASK);
    add_constant(v, "tags", "TAG_PTR", TAG_PTR);
    add_constant(v, "tags", "TAG_FLOAT_IMM", TAG_FLOAT_IMM);
    add_constant(v, "tags", "SMALLINT_BITS", SMALLINT_BITS as u64);
}

#[verifier::opaque]
pub open spec fn header_table(v: Seq<Constant>) -> Seq<Constant> {
    v.push(
        Constant { group: "header"@, name: "HDR_CLASS_SHIFT"@, value: HDR_CLASS_SHIFT as u64 },
    ).push(
        Constant { group: "header"@, name: "HDR_CLASS_BITS"@, value: HDR_CLASS_BITS as u64 },
    ).push(
        Constant { group: "header"@, name: "HDR_HASH_SHIFT"@, value: HDR_HASH_SHIFT as u64 },
    ).push(
        Constant { group: "header"@, name: "HDR_HASH_BITS"@, value: HDR_HASH_BITS as u64 },
    ).push(
        Constant { group: "header"@, name: "HDR_NSLOTS_SHIFT"@, value: HDR_NSLOTS_SHIFT as u64 },
    ).push(
        Constant { group: "header"@, name: "HDR_NSLOTS_BITS"@, value: HDR_NSLOTS_BITS as u64 },
    ).push(
        Constant { group: "header"@, name: "HDR_NSLOTS_OVERFLOW"@, value: HDR_NSLOTS_OVERFLOW as u64 },
    ).push(
        Constant { group: "header"@, name: "HDR_FORMAT_SHIFT"@, value: HDR_FORMAT_SHIFT as u64 },
    ).push(
        Constant { group: "header"@, name: "HDR_FORMAT_BITS"@, value: HDR_FORMAT_BITS as u64 },
    ).push(
        Constant { group: "header"@, name: "HDR_GC_SHIFT"@, value: HDR_GC_SHIFT as u64 },
    ).push(
        Constant { group: "header"@, name: "HDR_GC_BITS"@, value: HDR_GC_BITS as u64 },
    ).push(
        Constant { group: "header"@, name: "GC_BIT_MARK"@, value: GC_BIT_MARK as u64 },
    ).push(
        Constant { group: "header"@, name: "GC_BIT_REMEMBERED"@, value: GC_BIT_REMEMBERED as u64 },
    ).push(
        Constant { group: "header"@, name: "GC_BIT_PINNED"@, value: GC_BIT_PINNED as u64 },
    ).push(
        Constant { group: "header"@, name: "GC_AGE_SHIFT"@, value: GC_AGE_SHIFT as u64 },
    ).push(
        Constant { group: "header"@, name: "GC_AGE_BITS"@, value: GC_AGE_BITS as u64 },
    ).push(
        Constant { group: "header"@, name: "GC_BIT_IMMUTABLE"@, value: GC_BIT_IMMUTABLE as u64 },
    )
}

fn add_header_table(v: &mut Vec<(&'static str, &'static str, u64)>)
    ensures
        constant_views(final(v)@) == header_table(constant_views(old(v)@)),
{
    reveal(header_table);
    add_constant(v, "header", "HDR_CLASS_SHIFT", HDR_CLASS_SHIFT as u64);
    add_constant(v, "header", "HDR_CLASS_BITS", HDR_CLASS_BITS as u64);
    add_constant(v, "header", "HDR_HASH_SHIFT", HDR_HASH_SHIFT as u64);
    add_constant(v, "header", "HDR_HASH_BITS", HDR_HASH_BITS as u64);
    add_constant(v, "header", "HDR_NSLOTS_SHIFT", HDR_NSLOTS_SHIFT as u64);
    add_constant(v, "header", "HDR_NSLOTS_BITS", HDR_NSLOTS_BITS as u64);
    add_constant(v, "header", "HDR_NSLOTS_OVERFLOW", HDR_NSLOTS_OVERFLOW);
    add_constant(v, "header", "HDR_FORMAT_SHIFT", HDR_FORMAT_SHIFT as u64);
    add_constant(v, "header", "HDR_FORMAT_BITS", HDR_FORMAT_BITS as u64);
    add_constant(v, "header", "HDR_GC_SHIFT", HDR_GC_SHIFT as u64);
    add_constant(v, "header", "HDR_GC_BITS", HDR_GC_BITS as u64);
    add_constant(v, "header", "GC_BIT_MARK", GC_BIT_MARK);
    add_constant(v, "header", "GC_BIT_REMEMBERED", GC_BIT_REMEMBERED);
    add_constant(v, "header", "GC_BIT_PINNED", GC_BIT_PINNED);
    add_constant(v, "header", "GC_AGE_SHIFT", GC_AGE_SHIFT as u64);
    add_constant(v, "header", "GC_AGE_BITS", GC_AGE_BITS as u64);
    add_constant(v, "header", "GC_BIT_IMMUTABLE", GC_BIT_IMMUTABLE);
}

#[verifier::opaque]
pub open spec fn formats_table(v: Seq<Constant>) -> Seq<Constant> {
    v.push(
        Constant { group: "formats"@, name: "FMT_FIXED"@, value: FMT_FIXED as u64 },
    ).push(
        Constant { group: "formats"@, name: "FMT_PTRS"@, value: FMT_PTRS as u64 },
    ).push(
        Constant { group: "formats"@, name: "FMT_BYTES_BASE"@, value: FMT_BYTES_BASE as u64 },
    )
}

fn add_formats_table(v: &mut Vec<(&'static str, &'static str, u64)>)
    ensures
        constant_views(final(v)@) == formats_table(constant_views(old(v)@)),
{
    reveal(formats_table);
    add_constant(v, "formats", "FMT_FIXED", FMT_FIXED);
    add_constant(v, "formats", "FMT_PTRS", FMT_PTRS);
    add_constant(v, "formats", "FMT_BYTES_BASE", FMT_BYTES_BASE);
}

#[verifier::opaque]
pub open spec fn frame_table(v: Seq<Constant>) -> Seq<Constant> {
    v.push(
        Constant { group: "frame"@, name: "FRAME_CALLER"@, value: FRAME_CALLER as u64 },
    ).push(
        Constant { group: "frame"@, name: "FRAME_RETINFO"@, value: FRAME_RETINFO as u64 },
    ).push(
        Constant { group: "frame"@, name: "FRAME_METHOD"@, value: FRAME_METHOD as u64 },
    ).push(
        Constant { group: "frame"@, name: "FRAME_FLAGS"@, value: FRAME_FLAGS as u64 },
    ).push(
        Constant { group: "frame"@, name: "FRAME_RECEIVER"@, value: FRAME_RECEIVER as u64 },
    ).push(
        Constant { group: "frame"@, name: "FRAME_FIXED"@, value: FRAME_FIXED as u64 },
    ).push(
        Constant { group: "frame"@, name: "FLAG_HANDLER"@, value: FLAG_HANDLER as u64 },
    ).push(
        Constant { group: "frame"@, name: "FLAG_ENSURE"@, value: FLAG_ENSURE as u64 },
    ).push(
        Constant { group: "frame"@, name: "FLAG_BLOCKCTX"@, value: FLAG_BLOCKCTX as u64 },
    ).push(
        Constant { group: "frame"@, name: "FLAG_UNWINDCONT"@, value: FLAG_UNWINDCONT as u64 },
    ).push(
        Constant { group: "frame"@, name: "SERIAL_SHIFT"@, value: SERIAL_SHIFT as u64 },
    ).push(
        Constant { group: "frame"@, name: "RETINFO_DEST_BITS"@, value: RETINFO_DEST_BITS as u64 },
    ).push(
        Constant { group: "frame"@, name: "RETINFO_PC_SHIFT"@, value: RETINFO_PC_SHIFT as u64 },
    )
}

fn add_frame_table(v: &mut Vec<(&'static str, &'static str, u64)>)
    ensures
        constant_views(final(v)@) == frame_table(constant_views(old(v)@)),
{
    reveal(frame_table);
    add_constant(v, "frame", "FRAME_CALLER", FRAME_CALLER as u64);
    add_constant(v, "frame", "FRAME_RETINFO", FRAME_RETINFO as u64);
    add_constant(v, "frame", "FRAME_METHOD", FRAME_METHOD as u64);
    add_constant(v, "frame", "FRAME_FLAGS", FRAME_FLAGS as u64);
    add_constant(v, "frame", "FRAME_RECEIVER", FRAME_RECEIVER as u64);
    add_constant(v, "frame", "FRAME_FIXED", FRAME_FIXED as u64);
    add_constant(v, "frame", "FLAG_HANDLER", FLAG_HANDLER);
    add_constant(v, "frame", "FLAG_ENSURE", FLAG_ENSURE);
    add_constant(v, "frame", "FLAG_BLOCKCTX", FLAG_BLOCKCTX);
    add_constant(v, "frame", "FLAG_UNWINDCONT", FLAG_UNWINDCONT);
    add_constant(v, "frame", "SERIAL_SHIFT", SERIAL_SHIFT as u64);
    add_constant(v, "frame", "RETINFO_DEST_BITS", RETINFO_DEST_BITS as u64);
    add_constant(v, "frame", "RETINFO_PC_SHIFT", RETINFO_PC_SHIFT as u64);
}

#[verifier::opaque]
pub open spec fn stack_slots_table(v: Seq<Constant>) -> Seq<Constant> {
    v.push(
        Constant { group: "stack_slots"@, name: "STACK_OWNER"@, value: STACK_OWNER as u64 },
    ).push(
        Constant { group: "stack_slots"@, name: "STACK_FRAMES_BASE"@, value: STACK_FRAMES_BASE as u64 },
    )
}

fn add_stack_slots_table(v: &mut Vec<(&'static str, &'static str, u64)>)
    ensures
        constant_views(final(v)@) == stack_slots_table(constant_views(old(v)@)),
{
    reveal(stack_slots_table);
    add_constant(v, "stack_slots", "STACK_OWNER", STACK_OWNER as u64);
    add_constant(v, "stack_slots", "STACK_FRAMES_BASE", STACK_FRAMES_BASE as u64);
}

#[verifier::opaque]
pub open spec fn method_dictionary_slots_table(v: Seq<Constant>) -> Seq<Constant> {
    v.push(
        Constant { group: "method_dictionary_slots"@, name: "MDICT_KEYS"@, value: MDICT_KEYS as u64 },
    ).push(
        Constant { group: "method_dictionary_slots"@, name: "MDICT_VALUES"@, value: MDICT_VALUES as u64 },
    ).push(
        Constant { group: "method_dictionary_slots"@, name: "MDICT_NUM_VM_SLOTS"@, value: MDICT_NUM_VM_SLOTS as u64 },
    )
}

fn add_method_dictionary_slots_table(v: &mut Vec<(&'static str, &'static str, u64)>)
    ensures
        constant_views(final(v)@) == method_dictionary_slots_table(constant_views(old(v)@)),
{
    reveal(method_dictionary_slots_table);
    add_constant(v, "method_dictionary_slots", "MDICT_KEYS", MDICT_KEYS as u64);
    add_constant(v, "method_dictionary_slots", "MDICT_VALUES", MDICT_VALUES as u64);
    add_constant(v, "method_dictionary_slots", "MDICT_NUM_VM_SLOTS", MDICT_NUM_VM_SLOTS as u64);
}

#[verifier::opaque]
pub open spec fn linked_list_slots_table(v: Seq<Constant>) -> Seq<Constant> {
    v.push(
        Constant { group: "linked_list_slots"@, name: "LIST_HEAD"@, value: LIST_HEAD as u64 },
    ).push(
        Constant { group: "linked_list_slots"@, name: "LIST_TAIL"@, value: LIST_TAIL as u64 },
    ).push(
        Constant { group: "linked_list_slots"@, name: "LIST_NUM_VM_SLOTS"@, value: LIST_NUM_VM_SLOTS as u64 },
    )
}

fn add_linked_list_slots_table(v: &mut Vec<(&'static str, &'static str, u64)>)
    ensures
        constant_views(final(v)@) == linked_list_slots_table(constant_views(old(v)@)),
{
    reveal(linked_list_slots_table);
    add_constant(v, "linked_list_slots", "LIST_HEAD", LIST_HEAD as u64);
    add_constant(v, "linked_list_slots", "LIST_TAIL", LIST_TAIL as u64);
    add_constant(v, "linked_list_slots", "LIST_NUM_VM_SLOTS", LIST_NUM_VM_SLOTS as u64);
}

#[verifier::opaque]
pub open spec fn handler_slots_table(v: Seq<Constant>) -> Seq<Constant> {
    v.push(
        Constant { group: "handler_slots"@, name: "HANDLER_SLOT_CLASS"@, value: HANDLER_SLOT_CLASS as u64 },
    ).push(
        Constant { group: "handler_slots"@, name: "HANDLER_SLOT_BLOCK"@, value: HANDLER_SLOT_BLOCK as u64 },
    ).push(
        Constant { group: "handler_slots"@, name: "HANDLER_SLOT_STATE"@, value: HANDLER_SLOT_STATE as u64 },
    ).push(
        Constant { group: "handler_slots"@, name: "HANDLER_STATE_ARMED"@, value: HANDLER_STATE_ARMED as u64 },
    ).push(
        Constant { group: "handler_slots"@, name: "HANDLER_STATE_IN_PROGRESS"@, value: HANDLER_STATE_IN_PROGRESS as u64 },
    ).push(
        Constant { group: "handler_slots"@, name: "ENSURE_SLOT_BLOCK"@, value: ENSURE_SLOT_BLOCK as u64 },
    ).push(
        Constant { group: "handler_slots"@, name: "ENSURE_SLOT_PENDING_TARGET"@, value: ENSURE_SLOT_PENDING_TARGET as u64 },
    ).push(
        Constant { group: "handler_slots"@, name: "ENSURE_SLOT_PENDING_SERIAL"@, value: ENSURE_SLOT_PENDING_SERIAL as u64 },
    ).push(
        Constant { group: "handler_slots"@, name: "ENSURE_SLOT_PENDING_VALUE"@, value: ENSURE_SLOT_PENDING_VALUE as u64 },
    )
}

fn add_handler_slots_table(v: &mut Vec<(&'static str, &'static str, u64)>)
    ensures
        constant_views(final(v)@) == handler_slots_table(constant_views(old(v)@)),
{
    reveal(handler_slots_table);
    add_constant(v, "handler_slots", "HANDLER_SLOT_CLASS", HANDLER_SLOT_CLASS as u64);
    add_constant(v, "handler_slots", "HANDLER_SLOT_BLOCK", HANDLER_SLOT_BLOCK as u64);
    add_constant(v, "handler_slots", "HANDLER_SLOT_STATE", HANDLER_SLOT_STATE as u64);
    add_constant(v, "handler_slots", "HANDLER_STATE_ARMED", HANDLER_STATE_ARMED as u64);
    add_constant(v, "handler_slots", "HANDLER_STATE_IN_PROGRESS", HANDLER_STATE_IN_PROGRESS as u64);
    add_constant(v, "handler_slots", "ENSURE_SLOT_BLOCK", ENSURE_SLOT_BLOCK as u64);
    add_constant(v, "handler_slots", "ENSURE_SLOT_PENDING_TARGET", ENSURE_SLOT_PENDING_TARGET as u64);
    add_constant(v, "handler_slots", "ENSURE_SLOT_PENDING_SERIAL", ENSURE_SLOT_PENDING_SERIAL as u64);
    add_constant(v, "handler_slots", "ENSURE_SLOT_PENDING_VALUE", ENSURE_SLOT_PENDING_VALUE as u64);
}

#[verifier::opaque]
pub open spec fn specialized_selectors_table(v: Seq<Constant>) -> Seq<Constant> {
    v.push(
        Constant { group: "specialized_selectors"@, name: "SPECSEL_PLUS"@, value: SPECSEL_PLUS as u64 },
    ).push(
        Constant { group: "specialized_selectors"@, name: "SPECSEL_MINUS"@, value: SPECSEL_MINUS as u64 },
    ).push(
        Constant { group: "specialized_selectors"@, name: "SPECSEL_TIMES"@, value: SPECSEL_TIMES as u64 },
    ).push(
        Constant { group: "specialized_selectors"@, name: "SPECSEL_INT_DIV"@, value: SPECSEL_INT_DIV as u64 },
    ).push(
        Constant { group: "specialized_selectors"@, name: "SPECSEL_MOD"@, value: SPECSEL_MOD as u64 },
    ).push(
        Constant { group: "specialized_selectors"@, name: "SPECSEL_LT"@, value: SPECSEL_LT as u64 },
    ).push(
        Constant { group: "specialized_selectors"@, name: "SPECSEL_GT"@, value: SPECSEL_GT as u64 },
    ).push(
        Constant { group: "specialized_selectors"@, name: "SPECSEL_LE"@, value: SPECSEL_LE as u64 },
    ).push(
        Constant { group: "specialized_selectors"@, name: "SPECSEL_GE"@, value: SPECSEL_GE as u64 },
    ).push(
        Constant { group: "specialized_selectors"@, name: "SPECSEL_EQ"@, value: SPECSEL_EQ as u64 },
    ).push(
        Constant { group: "specialized_selectors"@, name: "SPECSEL_IDENTICAL"@, value: SPECSEL_IDENTICAL as u64 },
    ).push(
        Constant { group: "specialized_selectors"@, name: "SPECSEL_AT"@, value: SPECSEL_AT as u64 },
    ).push(
        Constant { group: "specialized_selectors"@, name: "SPECSEL_AT_PUT"@, value: SPECSEL_AT_PUT as u64 },
    ).push(
        Constant { group: "specialized_selectors"@, name: "SPECSEL_SIZE"@, value: SPECSEL_SIZE as u64 },
    ).push(
        Constant { group: "specialized_selectors"@, name: "SPECSEL_CLASS"@, value: SPECSEL_CLASS as u64 },
    ).push(
        Constant { group: "specialized_selectors"@, name: "SPECSEL_NOT"@, value: SPECSEL_NOT as u64 },
    ).push(
        Constant { group: "specialized_selectors"@, name: "SPECSEL_COUNT"@, value: SPECSEL_COUNT as u64 },
    )
}

fn add_specialized_selectors_table(v: &mut Vec<(&'static str, &'static str, u64)>)
    ensures
        constant_views(final(v)@) == specialized_selectors_table(constant_views(old(v)@)),
{
    reveal(specialized_selectors_table);
    add_constant(v, "specialized_selectors", "SPECSEL_PLUS", SPECSEL_PLUS as u64);
    add_constant(v, "specialized_selectors", "SPECSEL_MINUS", SPECSEL_MINUS as u64);
    add_constant(v, "specialized_selectors", "SPECSEL_TIMES", SPECSEL_TIMES as u64);
    add_constant(v, "specialized_selectors", "SPECSEL_INT_DIV", SPECSEL_INT_DIV as u64);
    add_constant(v, "specialized_selectors", "SPECSEL_MOD", SPECSEL_MOD as u64);
    add_constant(v, "specialized_selectors", "SPECSEL_LT", SPECSEL_LT as u64);
    add_constant(v, "specialized_selectors", "SPECSEL_GT", SPECSEL_GT as u64);
    add_constant(v, "specialized_selectors", "SPECSEL_LE", SPECSEL_LE as u64);
    add_constant(v, "specialized_selectors", "SPECSEL_GE", SPECSEL_GE as u64);
    add_constant(v, "specialized_selectors", "SPECSEL_EQ", SPECSEL_EQ as u64);
    add_constant(v, "specialized_selectors", "SPECSEL_IDENTICAL", SPECSEL_IDENTICAL as u64);
    add_constant(v, "specialized_selectors", "SPECSEL_AT", SPECSEL_AT as u64);
    add_constant(v, "specialized_selectors", "SPECSEL_AT_PUT", SPECSEL_AT_PUT as u64);
    add_constant(v, "specialized_selectors", "SPECSEL_SIZE", SPECSEL_SIZE as u64);
    add_constant(v, "specialized_selectors", "SPECSEL_CLASS", SPECSEL_CLASS as u64);
    add_constant(v, "specialized_selectors", "SPECSEL_NOT", SPECSEL_NOT as u64);
    add_constant(v, "specialized_selectors", "SPECSEL_COUNT", SPECSEL_COUNT as u64);
}

#[verifier::opaque]
pub open spec fn classes_table_a(v: Seq<Constant>) -> Seq<Constant> {
    v.push(
        Constant { group: "classes"@, name: "CLASS_OBJECT"@, value: CLASS_OBJECT as u64 },
    ).push(
        Constant { group: "classes"@, name: "CLASS_BEHAVIOR"@, value: CLASS_BEHAVIOR as u64 },
    ).push(
        Constant { group: "classes"@, name: "CLASS_CLASS"@, value: CLASS_CLASS as u64 },
    ).push(
        Constant { group: "classes"@, name: "CLASS_METACLASS"@, value: CLASS_METACLASS as u64 },
    ).push(
        Constant { group: "classes"@, name: "CLASS_UNDEFINED_OBJECT"@, value: CLASS_UNDEFINED_OBJECT as u64 },
    ).push(
        Constant { group: "classes"@, name: "CLASS_TRUE"@, value: CLASS_TRUE as u64 },
    ).push(
        Constant { group: "classes"@, name: "CLASS_FALSE"@, value: CLASS_FALSE as u64 },
    ).push(
        Constant { group: "classes"@, name: "CLASS_SMALLINTEGER"@, value: CLASS_SMALLINTEGER as u64 },
    ).push(
        Constant { group: "classes"@, name: "CLASS_FLOAT"@, value: CLASS_FLOAT as u64 },
    ).push(
        Constant { group: "classes"@, name: "CLASS_CHARACTER"@, value: CLASS_CHARACTER as u64 },
    ).push(
        Constant { group: "classes"@, name: "CLASS_STRING"@, value: CLASS_STRING as u64 },
    ).push(
        Constant { group: "classes"@, name: "CLASS_BYTESTRING"@, value: CLASS_BYTESTRING as u64 },
    ).push(
        Constant { group: "classes"@, name: "CLASS_SYMBOL"@, value: CLASS_SYMBOL as u64 },
    ).push(
        Constant { group: "classes"@, name: "CLASS_LARGE_POSITIVE_INTEGER"@, value: CLASS_LARGE_POSITIVE_INTEGER as u64 },
    ).push(
        Constant { group: "classes"@, name: "CLASS_LARGE_NEGATIVE_INTEGER"@, value: CLASS_LARGE_NEGATIVE_INTEGER as u64 },
    ).push(
        Constant { group: "classes"@, name: "CLASS_ARRAY"@, value: CLASS_ARRAY as u64 },
    ).push(
        Constant { group: "classes"@, name: "CLASS_BYTEARRAY"@, value: CLASS_BYTEARRAY as u64 },
    ).push(
        Constant { group: "classes"@, name: "CLASS_ORDERED_COLLECTION"@, value: CLASS_ORDERED_COLLECTION as u64 },
    ).push(
        Constant { group: "classes"@, name: "CLASS_ASSOCIATION"@, value: CLASS_ASSOCIATION as u64 },
    ).push(
        Constant { group: "classes"@, name: "CLASS_BOX"@, value: CLASS_BOX as u64 },
    ).push(
        Constant { group: "classes"@, name: "CLASS_BLOCKCLOSURE"@, value: CLASS_BLOCKCLOSURE as u64 },
    ).push(
        Constant { group: "classes"@, name: "CLASS_COMPILEDMETHOD"@, value: CLASS_COMPILEDMETHOD as u64 },
    ).push(
        Constant { group: "classes"@, name: "CLASS_COMPILEDBLOCK"@, value: CLASS_COMPILEDBLOCK as u64 },
    ).push(
        Constant { group: "classes"@, name: "CLASS_PROCESS"@, value: CLASS_PROCESS as u64 },
    )
}

fn add_classes_table_a(v: &mut Vec<(&'static str, &'static str, u64)>)
    ensures
        constant_views(final(v)@) == classes_table_a(constant_views(old(v)@)),
{
    reveal(classes_table_a);
    add_constant(v, "classes", "CLASS_OBJECT", CLASS_OBJECT as u64);
    add_constant(v, "classes", "CLASS_BEHAVIOR", CLASS_BEHAVIOR as u64);
    add_constant(v, "classes", "CLASS_CLASS", CLASS_CLASS as u64);
    add_constant(v, "classes", "CLASS_METACLASS", CLASS_METACLASS as u64);
    add_constant(v, "classes", "CLASS_UNDEFINED_OBJECT", CLASS_UNDEFINED_OBJECT as u64);
    add_constant(v, "classes", "CLASS_TRUE", CLASS_TRUE as u64);
    add_constant(v, "classes", "CLASS_FALSE", CLASS_FALSE as u64);
    add_constant(v, "classes", "CLASS_SMALLINTEGER", CLASS_SMALLINTEGER as u64);
    add_constant(v, "classes", "CLASS_FLOAT", CLASS_FLOAT as u64);
    add_constant(v, "classes", "CLASS_CHARACTER", CLASS_CHARACTER as u64);
    add_constant(v, "classes", "CLASS_STRING", CLASS_STRING as u64);
    add_constant(v, "classes", "CLASS_BYTESTRING", CLASS_BYTESTRING as u64);
    add_constant(v, "classes", "CLASS_SYMBOL", CLASS_SYMBOL as u64);
    add_constant(v, "classes", "CLASS_LARGE_POSITIVE_INTEGER", CLASS_LARGE_POSITIVE_INTEGER as u64);
    add_constant(v, "classes", "CLASS_LARGE_NEGATIVE_INTEGER", CLASS_LARGE_NEGATIVE_INTEGER as u64);
    add_constant(v, "classes", "CLASS_ARRAY", CLASS_ARRAY as u64);
    add_constant(v, "classes", "CLASS_BYTEARRAY", CLASS_BYTEARRAY as u64);
    add_constant(v, "classes", "CLASS_ORDERED_COLLECTION", CLASS_ORDERED_COLLECTION as u64);
    add_constant(v, "classes", "CLASS_ASSOCIATION", CLASS_ASSOCIATION as u64);
    add_constant(v, "classes", "CLASS_BOX", CLASS_BOX as u64);
    add_constant(v, "classes", "CLASS_BLOCKCLOSURE", CLASS_BLOCKCLOSURE as u64);
    add_constant(v, "classes", "CLASS_COMPILEDMETHOD", CLASS_COMPILEDMETHOD as u64);
    add_constant(v, "classes", "CLASS_COMPILEDBLOCK", CLASS_COMPILEDBLOCK as u64);
    add_constant(v, "classes", "CLASS_PROCESS", CLASS_PROCESS as u64);
}

#[verifier::opaque]
pub open spec fn classes_table_b(v: Seq<Constant>) -> Seq<Constant> {
    v.push(
        Constant { group: "classes"@, name: "CLASS_SEMAPHORE"@, value: CLASS_SEMAPHORE as u64 },
    ).push(
        Constant { group: "classes"@, name: "CLASS_METHODDICTIONARY"@, value: CLASS_METHODDICTIONARY as u64 },
    ).push(
        Constant { group: "classes"@, name: "CLASS_PROCESSOR_SCHEDULER"@, value: CLASS_PROCESSOR_SCHEDULER as u64 },
    ).push(
        Constant { group: "classes"@, name: "CLASS_MESSAGE"@, value: CLASS_MESSAGE as u64 },
    ).push(
        Constant { group: "classes"@, name: "CLASS_SYSTEM_DICTIONARY"@, value: CLASS_SYSTEM_DICTIONARY as u64 },
    ).push(
        Constant { group: "classes"@, name: "CLASS_STACK"@, value: CLASS_STACK as u64 },
    ).push(
        Constant { group: "classes"@, name: "CLASS_LINKED_LIST"@, value: CLASS_LINKED_LIST as u64 },
    ).push(
        Constant { group: "classes"@, name: "FIRST_UNRESERVED_CLASS_INDEX"@, value: FIRST_UNRESERVED_CLASS_INDEX as u64 },
    )
}

fn add_classes_table_b(v: &mut Vec<(&'static str, &'static str, u64)>)
    ensures
        constant_views(final(v)@) == classes_table_b(constant_views(old(v)@)),
{
    reveal(classes_table_b);
    add_constant(v, "classes", "CLASS_SEMAPHORE", CLASS_SEMAPHORE as u64);
    add_constant(v, "classes", "CLASS_METHODDICTIONARY", CLASS_METHODDICTIONARY as u64);
    add_constant(v, "classes", "CLASS_PROCESSOR_SCHEDULER", CLASS_PROCESSOR_SCHEDULER as u64);
    add_constant(v, "classes", "CLASS_MESSAGE", CLASS_MESSAGE as u64);
    add_constant(v, "classes", "CLASS_SYSTEM_DICTIONARY", CLASS_SYSTEM_DICTIONARY as u64);
    add_constant(v, "classes", "CLASS_STACK", CLASS_STACK as u64);
    add_constant(v, "classes", "CLASS_LINKED_LIST", CLASS_LINKED_LIST as u64);
    add_constant(v, "classes", "FIRST_UNRESERVED_CLASS_INDEX", FIRST_UNRESERVED_CLASS_INDEX as u64);
}

#[verifier::opaque]
pub open spec fn behavior_slots_table(v: Seq<Constant>) -> Seq<Constant> {
    v.push(
        Constant { group: "behavior_slots"@, name: "BEHAVIOR_SUPERCLASS"@, value: BEHAVIOR_SUPERCLASS as u64 },
    ).push(
        Constant { group: "behavior_slots"@, name: "BEHAVIOR_METHOD_DICTIONARY"@, value: BEHAVIOR_METHOD_DICTIONARY as u64 },
    ).push(
        Constant { group: "behavior_slots"@, name: "BEHAVIOR_FORMAT_AND_SLOTS"@, value: BEHAVIOR_FORMAT_AND_SLOTS as u64 },
    ).push(
        Constant { group: "behavior_slots"@, name: "BEHAVIOR_CLASS_INDEX"@, value: BEHAVIOR_CLASS_INDEX as u64 },
    ).push(
        Constant { group: "behavior_slots"@, name: "BEHAVIOR_NUM_VM_SLOTS"@, value: BEHAVIOR_NUM_VM_SLOTS as u64 },
    ).push(
        Constant { group: "behavior_slots"@, name: "FORMAT_AND_SLOTS_FORMAT_SHIFT"@, value: FORMAT_AND_SLOTS_FORMAT_SHIFT as u64 },
    ).push(
        Constant { group: "behavior_slots"@, name: "FORMAT_AND_SLOTS_NSLOTS_MASK"@, value: FORMAT_AND_SLOTS_NSLOTS_MASK as u64 },
    )
}

fn add_behavior_slots_table(v: &mut Vec<(&'static str, &'static str, u64)>)
    ensures
        constant_views(final(v)@) == behavior_slots_table(constant_views(old(v)@)),
{
    reveal(behavior_slots_table);
    add_constant(v, "behavior_slots", "BEHAVIOR_SUPERCLASS", BEHAVIOR_SUPERCLASS as u64);
    add_constant(v, "behavior_slots", "BEHAVIOR_METHOD_DICTIONARY", BEHAVIOR_METHOD_DICTIONARY as u64);
    add_constant(v, "behavior_slots", "BEHAVIOR_FORMAT_AND_SLOTS", BEHAVIOR_FORMAT_AND_SLOTS as u64);
    add_constant(v, "behavior_slots", "BEHAVIOR_CLASS_INDEX", BEHAVIOR_CLASS_INDEX as u64);
    add_constant(v, "behavior_slots", "BEHAVIOR_NUM_VM_SLOTS", BEHAVIOR_NUM_VM_SLOTS as u64);
    add_constant(v, "behavior_slots", "FORMAT_AND_SLOTS_FORMAT_SHIFT", FORMAT_AND_SLOTS_FORMAT_SHIFT as u64);
    add_constant(v, "behavior_slots", "FORMAT_AND_SLOTS_NSLOTS_MASK", FORMAT_AND_SLOTS_NSLOTS_MASK);
}

#[verifier::opaque]
pub open spec fn process_slots_table(v: Seq<Constant>) -> Seq<Constant> {
    v.push(
        Constant { group: "process_slots"@, name: "PROCESS_STACK"@, value: PROCESS_STACK as u64 },
    ).push(
        Constant { group: "process_slots"@, name: "PROCESS_FRAME_OFFSET"@, value: PROCESS_FRAME_OFFSET as u64 },
    ).push(
        Constant { group: "process_slots"@, name: "PROCESS_PC"@, value: PROCESS_PC as u64 },
    ).push(
        Constant { group: "process_slots"@, name: "PROCESS_PRIORITY"@, value: PROCESS_PRIORITY as u64 },
    ).push(
        Constant { group: "process_slots"@, name: "PROCESS_NEXT_LINK"@, value: PROCESS_NEXT_LINK as u64 },
    ).push(
        Constant { group: "process_slots"@, name: "PROCESS_MY_LIST"@, value: PROCESS_MY_LIST as u64 },
    ).push(
        Constant { group: "process_slots"@, name: "PROCESS_SERIAL_COUNTER"@, value: PROCESS_SERIAL_COUNTER as u64 },
    ).push(
        Constant { group: "process_slots"@, name: "PROCESS_NUM_VM_SLOTS"@, value: PROCESS_NUM_VM_SLOTS as u64 },
    )
}

fn add_process_slots_table(v: &mut Vec<(&'static str, &'static str, u64)>)
    ensures
        constant_views(final(v)@) == process_slots_table(constant_views(old(v)@)),
{
    reveal(process_slots_table);
    add_constant(v, "process_slots", "PROCESS_STACK", PROCESS_STACK as u64);
    add_constant(v, "process_slots", "PROCESS_FRAME_OFFSET", PROCESS_FRAME_OFFSET as u64);
    add_constant(v, "process_slots", "PROCESS_PC", PROCESS_PC as u64);
    add_constant(v, "process_slots", "PROCESS_PRIORITY", PROCESS_PRIORITY as u64);
    add_constant(v, "process_slots", "PROCESS_NEXT_LINK", PROCESS_NEXT_LINK as u64);
    add_constant(v, "process_slots", "PROCESS_MY_LIST", PROCESS_MY_LIST as u64);
    add_constant(v, "process_slots", "PROCESS_SERIAL_COUNTER", PROCESS_SERIAL_COUNTER as u64);
    add_constant(v, "process_slots", "PROCESS_NUM_VM_SLOTS", PROCESS_NUM_VM_SLOTS as u64);
}

#[verifier::opaque]
pub open spec fn semaphore_slots_table(v: Seq<Constant>) -> Seq<Constant> {
    v.push(
        Constant { group: "semaphore_slots"@, name: "SEMAPHORE_EXCESS_SIGNALS"@, value: SEMAPHORE_EXCESS_SIGNALS as u64 },
    ).push(
        Constant { group: "semaphore_slots"@, name: "SEMAPHORE_QUEUE_HEAD"@, value: SEMAPHORE_QUEUE_HEAD as u64 },
    ).push(
        Constant { group: "semaphore_slots"@, name: "SEMAPHORE_QUEUE_TAIL"@, value: SEMAPHORE_QUEUE_TAIL as u64 },
    ).push(
        Constant { group: "semaphore_slots"@, name: "SEMAPHORE_NUM_VM_SLOTS"@, value: SEMAPHORE_NUM_VM_SLOTS as u64 },
    )
}

fn add_semaphore_slots_table(v: &mut Vec<(&'static str, &'static str, u64)>)
    ensures
        constant_views(final(v)@) == semaphore_slots_table(constant_views(old(v)@)),
{
    reveal(semaphore_slots_table);
    add_constant(v, "semaphore_slots", "SEMAPHORE_EXCESS_SIGNALS", SEMAPHORE_EXCESS_SIGNALS as u64);
    add_constant(v, "semaphore_slots", "SEMAPHORE_QUEUE_HEAD", SEMAPHORE_QUEUE_HEAD as u64);
    add_constant(v, "semaphore_slots", "SEMAPHORE_QUEUE_TAIL", SEMAPHORE_QUEUE_TAIL as u64);
    add_constant(v, "semaphore_slots", "SEMAPHORE_NUM_VM_SLOTS", SEMAPHORE_NUM_VM_SLOTS as u64);
}

#[verifier::opaque]
pub open spec fn scheduler_slots_table(v: Seq<Constant>) -> Seq<Constant> {
    v.push(
        Constant { group: "scheduler_slots"@, name: "SCHEDULER_QUEUES"@, value: SCHEDULER_QUEUES as u64 },
    ).push(
        Constant { group: "scheduler_slots"@, name: "SCHEDULER_ACTIVE_PROCESS"@, value: SCHEDULER_ACTIVE_PROCESS as u64 },
    ).push(
        Constant { group: "scheduler_slots"@, name: "SCHEDULER_NUM_VM_SLOTS"@, value: SCHEDULER_NUM_VM_SLOTS as u64 },
    ).push(
        Constant { group: "scheduler_slots"@, name: "NUM_PRIORITIES"@, value: NUM_PRIORITIES as u64 },
    )
}

fn add_scheduler_slots_table(v: &mut Vec<(&'static str, &'static str, u64)>)
    ensures
        constant_views(final(v)@) == scheduler_slots_table(constant_views(old(v)@)),
{
    reveal(scheduler_slots_table);
    add_constant(v, "scheduler_slots", "SCHEDULER_QUEUES", SCHEDULER_QUEUES as u64);
    add_constant(v, "scheduler_slots", "SCHEDULER_ACTIVE_PROCESS", SCHEDULER_ACTIVE_PROCESS as u64);
    add_constant(v, "scheduler_slots", "SCHEDULER_NUM_VM_SLOTS", SCHEDULER_NUM_VM_SLOTS as u64);
    add_constant(v, "scheduler_slots", "NUM_PRIORITIES", NUM_PRIORITIES as u64);
}

#[verifier::opaque]
pub open spec fn compiled_method_slots_table(v: Seq<Constant>) -> Seq<Constant> {
    v.push(
        Constant { group: "compiled_method_slots"@, name: "METHOD_HEADER"@, value: METHOD_HEADER as u64 },
    ).push(
        Constant { group: "compiled_method_slots"@, name: "METHOD_BYTECODES"@, value: METHOD_BYTECODES as u64 },
    ).push(
        Constant { group: "compiled_method_slots"@, name: "METHOD_LITERALS"@, value: METHOD_LITERALS as u64 },
    ).push(
        Constant { group: "compiled_method_slots"@, name: "METHOD_SEND_SITES"@, value: METHOD_SEND_SITES as u64 },
    ).push(
        Constant { group: "compiled_method_slots"@, name: "METHOD_SELECTOR"@, value: METHOD_SELECTOR as u64 },
    ).push(
        Constant { group: "compiled_method_slots"@, name: "METHOD_CLASS"@, value: METHOD_CLASS as u64 },
    ).push(
        Constant { group: "compiled_method_slots"@, name: "METHOD_SOURCE_INFO"@, value: METHOD_SOURCE_INFO as u64 },
    ).push(
        Constant { group: "compiled_method_slots"@, name: "METHOD_NUM_SLOTS"@, value: METHOD_NUM_SLOTS as u64 },
    )
}

fn add_compiled_method_slots_table(v: &mut Vec<(&'static str, &'static str, u64)>)
    ensures
        constant_views(final(v)@) == compiled_method_slots_table(constant_views(old(v)@)),
{
    reveal(compiled_method_slots_table);
    add_constant(v, "compiled_method_slots", "METHOD_HEADER", METHOD_HEADER as u64);
    add_constant(v, "compiled_method_slots", "METHOD_BYTECODES", METHOD_BYTECODES as u64);
    add_constant(v, "compiled_method_slots", "METHOD_LITERALS", METHOD_LITERALS as u64);
    add_constant(v, "compiled_method_slots", "METHOD_SEND_SITES", METHOD_SEND_SITES as u64);
    add_constant(v, "compiled_method_slots", "METHOD_SELECTOR", METHOD_SELECTOR as u64);
    add_constant(v, "compiled_method_slots", "METHOD_CLASS", METHOD_CLASS as u64);
    add_constant(v, "compiled_method_slots", "METHOD_SOURCE_INFO", METHOD_SOURCE_INFO as u64);
    add_constant(v, "compiled_method_slots", "METHOD_NUM_SLOTS", METHOD_NUM_SLOTS as u64);
}

#[verifier::opaque]
pub open spec fn compiled_block_slots_table(v: Seq<Constant>) -> Seq<Constant> {
    v.push(
        Constant { group: "compiled_block_slots"@, name: "BLOCK_HEADER"@, value: BLOCK_HEADER as u64 },
    ).push(
        Constant { group: "compiled_block_slots"@, name: "BLOCK_BYTECODES"@, value: BLOCK_BYTECODES as u64 },
    ).push(
        Constant { group: "compiled_block_slots"@, name: "BLOCK_LITERALS"@, value: BLOCK_LITERALS as u64 },
    ).push(
        Constant { group: "compiled_block_slots"@, name: "BLOCK_SEND_SITES"@, value: BLOCK_SEND_SITES as u64 },
    ).push(
        Constant { group: "compiled_block_slots"@, name: "BLOCK_OUTER_METHOD"@, value: BLOCK_OUTER_METHOD as u64 },
    ).push(
        Constant { group: "compiled_block_slots"@, name: "BLOCK_INFO"@, value: BLOCK_INFO as u64 },
    ).push(
        Constant { group: "compiled_block_slots"@, name: "BLOCK_NUM_SLOTS"@, value: BLOCK_NUM_SLOTS as u64 },
    )
}

fn add_compiled_block_slots_table(v: &mut Vec<(&'static str, &'static str, u64)>)
    ensures
        constant_views(final(v)@) == compiled_block_slots_table(constant_views(old(v)@)),
{
    reveal(compiled_block_slots_table);
    add_constant(v, "compiled_block_slots", "BLOCK_HEADER", BLOCK_HEADER as u64);
    add_constant(v, "compiled_block_slots", "BLOCK_BYTECODES", BLOCK_BYTECODES as u64);
    add_constant(v, "compiled_block_slots", "BLOCK_LITERALS", BLOCK_LITERALS as u64);
    add_constant(v, "compiled_block_slots", "BLOCK_SEND_SITES", BLOCK_SEND_SITES as u64);
    add_constant(v, "compiled_block_slots", "BLOCK_OUTER_METHOD", BLOCK_OUTER_METHOD as u64);
    add_constant(v, "compiled_block_slots", "BLOCK_INFO", BLOCK_INFO as u64);
    add_constant(v, "compiled_block_slots", "BLOCK_NUM_SLOTS", BLOCK_NUM_SLOTS as u64);
}

#[verifier::opaque]
pub open spec fn method_header_table(v: Seq<Constant>) -> Seq<Constant> {
    v.push(
        Constant { group: "method_header"@, name: "MH_FRAME_SLOTS_SHIFT"@, value: MH_FRAME_SLOTS_SHIFT as u64 },
    ).push(
        Constant { group: "method_header"@, name: "MH_FRAME_SLOTS_BITS"@, value: MH_FRAME_SLOTS_BITS as u64 },
    ).push(
        Constant { group: "method_header"@, name: "MH_ARGC_SHIFT"@, value: MH_ARGC_SHIFT as u64 },
    ).push(
        Constant { group: "method_header"@, name: "MH_ARGC_BITS"@, value: MH_ARGC_BITS as u64 },
    ).push(
        Constant { group: "method_header"@, name: "MH_PRIMITIVE_SHIFT"@, value: MH_PRIMITIVE_SHIFT as u64 },
    ).push(
        Constant { group: "method_header"@, name: "MH_PRIMITIVE_BITS"@, value: MH_PRIMITIVE_BITS as u64 },
    ).push(
        Constant { group: "method_header"@, name: "MH_HAS_PRIMITIVE_SHIFT"@, value: MH_HAS_PRIMITIVE_SHIFT as u64 },
    ).push(
        Constant { group: "method_header"@, name: "MH_HANDLER_SLOT_BASE_SHIFT"@, value: MH_HANDLER_SLOT_BASE_SHIFT as u64 },
    ).push(
        Constant { group: "method_header"@, name: "MH_HANDLER_SLOT_BASE_BITS"@, value: MH_HANDLER_SLOT_BASE_BITS as u64 },
    ).push(
        Constant { group: "method_header"@, name: "MH_FLAGS_SHIFT"@, value: MH_FLAGS_SHIFT as u64 },
    ).push(
        Constant { group: "method_header"@, name: "MH_FLAG_IS_HANDLER"@, value: MH_FLAG_IS_HANDLER as u64 },
    ).push(
        Constant { group: "method_header"@, name: "MH_FLAG_IS_ENSURE"@, value: MH_FLAG_IS_ENSURE as u64 },
    )
}

fn add_method_header_table(v: &mut Vec<(&'static str, &'static str, u64)>)
    ensures
        constant_views(final(v)@) == method_header_table(constant_views(old(v)@)),
{
    reveal(method_header_table);
    add_constant(v, "method_header", "MH_FRAME_SLOTS_SHIFT", MH_FRAME_SLOTS_SHIFT as u64);
    add_constant(v, "method_header", "MH_FRAME_SLOTS_BITS", MH_FRAME_SLOTS_BITS as u64);
    add_constant(v, "method_header", "MH_ARGC_SHIFT", MH_ARGC_SHIFT as u64);
    add_constant(v, "method_header", "MH_ARGC_BITS", MH_ARGC_BITS as u64);
    add_constant(v, "method_header", "MH_PRIMITIVE_SHIFT", MH_PRIMITIVE_SHIFT as u64);
    add_constant(v, "method_header", "MH_PRIMITIVE_BITS", MH_PRIMITIVE_BITS as u64);
    add_constant(v, "method_header", "MH_HAS_PRIMITIVE_SHIFT", MH_HAS_PRIMITIVE_SHIFT as u64);
    add_constant(v, "method_header", "MH_HANDLER_SLOT_BASE_SHIFT", MH_HANDLER_SLOT_BASE_SHIFT as u64);
    add_constant(v, "method_header", "MH_HANDLER_SLOT_BASE_BITS", MH_HANDLER_SLOT_BASE_BITS as u64);
    add_constant(v, "method_header", "MH_FLAGS_SHIFT", MH_FLAGS_SHIFT as u64);
    add_constant(v, "method_header", "MH_FLAG_IS_HANDLER", MH_FLAG_IS_HANDLER);
    add_constant(v, "method_header", "MH_FLAG_IS_ENSURE", MH_FLAG_IS_ENSURE);
}

#[verifier::opaque]
pub open spec fn block_info_table(v: Seq<Constant>) -> Seq<Constant> {
    v.push(
        Constant { group: "block_info"@, name: "BI_NUM_CAPTURED_SHIFT"@, value: BI_NUM_CAPTURED_SHIFT as u64 },
    ).push(
        Constant { group: "block_info"@, name: "BI_NUM_CAPTURED_BITS"@, value: BI_NUM_CAPTURED_BITS as u64 },
    ).push(
        Constant { group: "block_info"@, name: "BI_HAS_NLR_SHIFT"@, value: BI_HAS_NLR_SHIFT as u64 },
    )
}

fn add_block_info_table(v: &mut Vec<(&'static str, &'static str, u64)>)
    ensures
        constant_views(final(v)@) == block_info_table(constant_views(old(v)@)),
{
    reveal(block_info_table);
    add_constant(v, "block_info", "BI_NUM_CAPTURED_SHIFT", BI_NUM_CAPTURED_SHIFT as u64);
    add_constant(v, "block_info", "BI_NUM_CAPTURED_BITS", BI_NUM_CAPTURED_BITS as u64);
    add_constant(v, "block_info", "BI_HAS_NLR_SHIFT", BI_HAS_NLR_SHIFT as u64);
}

#[verifier::opaque]
pub open spec fn closure_slots_table(v: Seq<Constant>) -> Seq<Constant> {
    v.push(
        Constant { group: "closure_slots"@, name: "CLOSURE_COMPILED_BLOCK"@, value: CLOSURE_COMPILED_BLOCK as u64 },
    ).push(
        Constant { group: "closure_slots"@, name: "CLOSURE_HOME_PROCESS"@, value: CLOSURE_HOME_PROCESS as u64 },
    ).push(
        Constant { group: "closure_slots"@, name: "CLOSURE_HOME_OFFSET"@, value: CLOSURE_HOME_OFFSET as u64 },
    ).push(
        Constant { group: "closure_slots"@, name: "CLOSURE_HOME_SERIAL"@, value: CLOSURE_HOME_SERIAL as u64 },
    ).push(
        Constant { group: "closure_slots"@, name: "CLOSURE_CAPTURED_BASE"@, value: CLOSURE_CAPTURED_BASE as u64 },
    )
}

fn add_closure_slots_table(v: &mut Vec<(&'static str, &'static str, u64)>)
    ensures
        constant_views(final(v)@) == closure_slots_table(constant_views(old(v)@)),
{
    reveal(closure_slots_table);
    add_constant(v, "closure_slots", "CLOSURE_COMPILED_BLOCK", CLOSURE_COMPILED_BLOCK as u64);
    add_constant(v, "closure_slots", "CLOSURE_HOME_PROCESS", CLOSURE_HOME_PROCESS as u64);
    add_constant(v, "closure_slots", "CLOSURE_HOME_OFFSET", CLOSURE_HOME_OFFSET as u64);
    add_constant(v, "closure_slots", "CLOSURE_HOME_SERIAL", CLOSURE_HOME_SERIAL as u64);
    add_constant(v, "closure_slots", "CLOSURE_CAPTURED_BASE", CLOSURE_CAPTURED_BASE as u64);
}

#[verifier::opaque]
pub open spec fn send_site_table(v: Seq<Constant>) -> Seq<Constant> {
    v.push(
        Constant { group: "send_site"@, name: "SITE_SELECTOR"@, value: SITE_SELECTOR as u64 },
    ).push(
        Constant { group: "send_site"@, name: "SITE_ARGC"@, value: SITE_ARGC as u64 },
    ).push(
        Constant { group: "send_site"@, name: "SITE_CACHE_CLASS"@, value: SITE_CACHE_CLASS as u64 },
    ).push(
        Constant { group: "send_site"@, name: "SITE_CACHE_METHOD"@, value: SITE_CACHE_METHOD as u64 },
    ).push(
        Constant { group: "send_site"@, name: "SITE_STATIC_CLASS"@, value: SITE_STATIC_CLASS as u64 },
    ).push(
        Constant { group: "send_site"@, name: "SITE_STRIDE"@, value: SITE_STRIDE as u64 },
    )
}

fn add_send_site_table(v: &mut Vec<(&'static str, &'static str, u64)>)
    ensures
        constant_views(final(v)@) == send_site_table(constant_views(old(v)@)),
{
    reveal(send_site_table);
    add_constant(v, "send_site", "SITE_SELECTOR", SITE_SELECTOR as u64);
    add_constant(v, "send_site", "SITE_ARGC", SITE_ARGC as u64);
    add_constant(v, "send_site", "SITE_CACHE_CLASS", SITE_CACHE_CLASS as u64);
    add_constant(v, "send_site", "SITE_CACHE_METHOD", SITE_CACHE_METHOD as u64);
    add_constant(v, "send_site", "SITE_STATIC_CLASS", SITE_STATIC_CLASS as u64);
    add_constant(v, "send_site", "SITE_STRIDE", SITE_STRIDE as u64);
}

#[verifier::opaque]
pub open spec fn special_objects_table(v: Seq<Constant>) -> Seq<Constant> {
    v.push(
        Constant { group: "special_objects"@, name: "SPECIAL_NIL"@, value: SPECIAL_NIL as u64 },
    ).push(
        Constant { group: "special_objects"@, name: "SPECIAL_TRUE"@, value: SPECIAL_TRUE as u64 },
    ).push(
        Constant { group: "special_objects"@, name: "SPECIAL_FALSE"@, value: SPECIAL_FALSE as u64 },
    ).push(
        Constant { group: "special_objects"@, name: "SPECIAL_SMALLTALK"@, value: SPECIAL_SMALLTALK as u64 },
    ).push(
        Constant { group: "special_objects"@, name: "SPECIAL_PROCESSOR"@, value: SPECIAL_PROCESSOR as u64 },
    ).push(
        Constant { group: "special_objects"@, name: "SPECIAL_CLASS_LIST"@, value: SPECIAL_CLASS_LIST as u64 },
    ).push(
        Constant { group: "special_objects"@, name: "SPECIAL_SYMBOL_TABLE"@, value: SPECIAL_SYMBOL_TABLE as u64 },
    ).push(
        Constant { group: "special_objects"@, name: "SPECIAL_SPECIALIZED_SELECTORS"@, value: SPECIAL_SPECIALIZED_SELECTORS as u64 },
    ).push(
        Constant { group: "special_objects"@, name: "SPECIAL_SEL_DOES_NOT_UNDERSTAND"@, value: SPECIAL_SEL_DOES_NOT_UNDERSTAND as u64 },
    ).push(
        Constant { group: "special_objects"@, name: "SPECIAL_SEL_MUST_BE_BOOLEAN"@, value: SPECIAL_SEL_MUST_BE_BOOLEAN as u64 },
    ).push(
        Constant { group: "special_objects"@, name: "SPECIAL_TERMINATE_TRAMPOLINE"@, value: SPECIAL_TERMINATE_TRAMPOLINE as u64 },
    ).push(
        Constant { group: "special_objects"@, name: "SPECIAL_LOW_SPACE_SEMAPHORE"@, value: SPECIAL_LOW_SPACE_SEMAPHORE as u64 },
    ).push(
        Constant { group: "special_objects"@, name: "SPECIAL_TIMER_SEMAPHORE"@, value: SPECIAL_TIMER_SEMAPHORE as u64 },
    ).push(
        Constant { group: "special_objects"@, name: "SPECIAL_OBJECTS_COUNT"@, value: SPECIAL_OBJECTS_COUNT as u64 },
    )
}

fn add_special_objects_table(v: &mut Vec<(&'static str, &'static str, u64)>)
    ensures
        constant_views(final(v)@) == special_objects_table(constant_views(old(v)@)),
{
    reveal(special_objects_table);
    add_constant(v, "special_objects", "SPECIAL_NIL", SPECIAL_NIL as u64);
    add_constant(v, "special_objects", "SPECIAL_TRUE", SPECIAL_TRUE as u64);
    add_constant(v, "special_objects", "SPECIAL_FALSE", SPECIAL_FALSE as u64);
    add_constant(v, "special_objects", "SPECIAL_SMALLTALK", SPECIAL_SMALLTALK as u64);
    add_constant(v, "special_objects", "SPECIAL_PROCESSOR", SPECIAL_PROCESSOR as u64);
    add_constant(v, "special_objects", "SPECIAL_CLASS_LIST", SPECIAL_CLASS_LIST as u64);
    add_constant(v, "special_objects", "SPECIAL_SYMBOL_TABLE", SPECIAL_SYMBOL_TABLE as u64);
    add_constant(v, "special_objects", "SPECIAL_SPECIALIZED_SELECTORS", SPECIAL_SPECIALIZED_SELECTORS as u64);
    add_constant(v, "special_objects", "SPECIAL_SEL_DOES_NOT_UNDERSTAND", SPECIAL_SEL_DOES_NOT_UNDERSTAND as u64);
    add_constant(v, "special_objects", "SPECIAL_SEL_MUST_BE_BOOLEAN", SPECIAL_SEL_MUST_BE_BOOLEAN as u64);
    add_constant(v, "special_objects", "SPECIAL_TERMINATE_TRAMPOLINE", SPECIAL_TERMINATE_TRAMPOLINE as u64);
    add_constant(v, "special_objects", "SPECIAL_LOW_SPACE_SEMAPHORE", SPECIAL_LOW_SPACE_SEMAPHORE as u64);
    add_constant(v, "special_objects", "SPECIAL_TIMER_SEMAPHORE", SPECIAL_TIMER_SEMAPHORE as u64);
    add_constant(v, "special_objects", "SPECIAL_OBJECTS_COUNT", SPECIAL_OBJECTS_COUNT as u64);
}

#[verifier::opaque]
pub open spec fn primitives_table_a(v: Seq<Constant>) -> Seq<Constant> {
    v.push(
        Constant { group: "primitives"@, name: "PRIM_CLASS"@, value: PRIM_CLASS as u64 },
    ).push(
        Constant { group: "primitives"@, name: "PRIM_IDENTITY_HASH"@, value: PRIM_IDENTITY_HASH as u64 },
    ).push(
        Constant { group: "primitives"@, name: "PRIM_IDENTICAL"@, value: PRIM_IDENTICAL as u64 },
    ).push(
        Constant { group: "primitives"@, name: "PRIM_NEW"@, value: PRIM_NEW as u64 },
    ).push(
        Constant { group: "primitives"@, name: "PRIM_NEW_SIZED"@, value: PRIM_NEW_SIZED as u64 },
    ).push(
        Constant { group: "primitives"@, name: "PRIM_AT"@, value: PRIM_AT as u64 },
    ).push(
        Constant { group: "primitives"@, name: "PRIM_AT_PUT"@, value: PRIM_AT_PUT as u64 },
    ).push(
        Constant { group: "primitives"@, name: "PRIM_SIZE"@, value: PRIM_SIZE as u64 },
    ).push(
        Constant { group: "primitives"@, name: "PRIM_INST_VAR_AT"@, value: PRIM_INST_VAR_AT as u64 },
    ).push(
        Constant { group: "primitives"@, name: "PRIM_INST_VAR_AT_PUT"@, value: PRIM_INST_VAR_AT_PUT as u64 },
    ).push(
        Constant { group: "primitives"@, name: "PRIM_PERFORM_WITH_ARGS"@, value: PRIM_PERFORM_WITH_ARGS as u64 },
    ).push(
        Constant { group: "primitives"@, name: "PRIM_INT_ADD"@, value: PRIM_INT_ADD as u64 },
    ).push(
        Constant { group: "primitives"@, name: "PRIM_INT_SUB"@, value: PRIM_INT_SUB as u64 },
    ).push(
        Constant { group: "primitives"@, name: "PRIM_INT_MUL"@, value: PRIM_INT_MUL as u64 },
    ).push(
        Constant { group: "primitives"@, name: "PRIM_INT_DIV"@, value: PRIM_INT_DIV as u64 },
    ).push(
        Constant { group: "primitives"@, name: "PRIM_INT_MOD"@, value: PRIM_INT_MOD as u64 },
    ).push(
        Constant { group: "primitives"@, name: "PRIM_INT_QUO"@, value: PRIM_INT_QUO as u64 },
    ).push(
        Constant { group: "primitives"@, name: "PRIM_INT_LT"@, value: PRIM_INT_LT as u64 },
    ).push(
        Constant { group: "primitives"@, name: "PRIM_INT_GT"@, value: PRIM_INT_GT as u64 },
    ).push(
        Constant { group: "primitives"@, name: "PRIM_INT_LE"@, value: PRIM_INT_LE as u64 },
    ).push(
        Constant { group: "primitives"@, name: "PRIM_INT_GE"@, value: PRIM_INT_GE as u64 },
    ).push(
        Constant { group: "primitives"@, name: "PRIM_INT_EQ"@, value: PRIM_INT_EQ as u64 },
    ).push(
        Constant { group: "primitives"@, name: "PRIM_INT_BIT_AND"@, value: PRIM_INT_BIT_AND as u64 },
    ).push(
        Constant { group: "primitives"@, name: "PRIM_INT_BIT_OR"@, value: PRIM_INT_BIT_OR as u64 },
    )
}

fn add_primitives_table_a(v: &mut Vec<(&'static str, &'static str, u64)>)
    ensures
        constant_views(final(v)@) == primitives_table_a(constant_views(old(v)@)),
{
    reveal(primitives_table_a);
    add_constant(v, "primitives", "PRIM_CLASS", PRIM_CLASS as u64);
    add_constant(v, "primitives", "PRIM_IDENTITY_HASH", PRIM_IDENTITY_HASH as u64);
    add_constant(v, "primitives", "PRIM_IDENTICAL", PRIM_IDENTICAL as u64);
    add_constant(v, "primitives", "PRIM_NEW", PRIM_NEW as u64);
    add_constant(v, "primitives", "PRIM_NEW_SIZED", PRIM_NEW_SIZED as u64);
    add_constant(v, "primitives", "PRIM_AT", PRIM_AT as u64);
    add_constant(v, "primitives", "PRIM_AT_PUT", PRIM_AT_PUT as u64);
    add_constant(v, "primitives", "PRIM_SIZE", PRIM_SIZE as u64);
    add_constant(v, "primitives", "PRIM_INST_VAR_AT", PRIM_INST_VAR_AT as u64);
    add_constant(v, "primitives", "PRIM_INST_VAR_AT_PUT", PRIM_INST_VAR_AT_PUT as u64);
    add_constant(v, "primitives", "PRIM_PERFORM_WITH_ARGS", PRIM_PERFORM_WITH_ARGS as u64);
    add_constant(v, "primitives", "PRIM_INT_ADD", PRIM_INT_ADD as u64);
    add_constant(v, "primitives", "PRIM_INT_SUB", PRIM_INT_SUB as u64);
    add_constant(v, "primitives", "PRIM_INT_MUL", PRIM_INT_MUL as u64);
    add_constant(v, "primitives", "PRIM_INT_DIV", PRIM_INT_DIV as u64);
    add_constant(v, "primitives", "PRIM_INT_MOD", PRIM_INT_MOD as u64);
    add_constant(v, "primitives", "PRIM_INT_QUO", PRIM_INT_QUO as u64);
    add_constant(v, "primitives", "PRIM_INT_LT", PRIM_INT_LT as u64);
    add_constant(v, "primitives", "PRIM_INT_GT", PRIM_INT_GT as u64);
    add_constant(v, "primitives", "PRIM_INT_LE", PRIM_INT_LE as u64);
    add_constant(v, "primitives", "PRIM_INT_GE", PRIM_INT_GE as u64);
    add_constant(v, "primitives", "PRIM_INT_EQ", PRIM_INT_EQ as u64);
    add_constant(v, "primitives", "PRIM_INT_BIT_AND", PRIM_INT_BIT_AND as u64);
    add_constant(v, "primitives", "PRIM_INT_BIT_OR", PRIM_INT_BIT_OR as u64);
}

#[verifier::opaque]
pub open spec fn primitives_table_b(v: Seq<Constant>) -> Seq<Constant> {
    v.push(
        Constant { group: "primitives"@, name: "PRIM_INT_BIT_XOR"@, value: PRIM_INT_BIT_XOR as u64 },
    ).push(
        Constant { group: "primitives"@, name: "PRIM_INT_BIT_SHIFT"@, value: PRIM_INT_BIT_SHIFT as u64 },
    ).push(
        Constant { group: "primitives"@, name: "PRIM_INT_AS_FLOAT"@, value: PRIM_INT_AS_FLOAT as u64 },
    ).push(
        Constant { group: "primitives"@, name: "PRIM_FLOAT_ADD"@, value: PRIM_FLOAT_ADD as u64 },
    ).push(
        Constant { group: "primitives"@, name: "PRIM_FLOAT_SUB"@, value: PRIM_FLOAT_SUB as u64 },
    ).push(
        Constant { group: "primitives"@, name: "PRIM_FLOAT_MUL"@, value: PRIM_FLOAT_MUL as u64 },
    ).push(
        Constant { group: "primitives"@, name: "PRIM_FLOAT_DIV"@, value: PRIM_FLOAT_DIV as u64 },
    ).push(
        Constant { group: "primitives"@, name: "PRIM_FLOAT_LT"@, value: PRIM_FLOAT_LT as u64 },
    ).push(
        Constant { group: "primitives"@, name: "PRIM_FLOAT_GT"@, value: PRIM_FLOAT_GT as u64 },
    ).push(
        Constant { group: "primitives"@, name: "PRIM_FLOAT_LE"@, value: PRIM_FLOAT_LE as u64 },
    ).push(
        Constant { group: "primitives"@, name: "PRIM_FLOAT_GE"@, value: PRIM_FLOAT_GE as u64 },
    ).push(
        Constant { group: "primitives"@, name: "PRIM_FLOAT_EQ"@, value: PRIM_FLOAT_EQ as u64 },
    ).push(
        Constant { group: "primitives"@, name: "PRIM_FLOAT_TRUNCATED"@, value: PRIM_FLOAT_TRUNCATED as u64 },
    ).push(
        Constant { group: "primitives"@, name: "PRIM_FLOAT_SQRT"@, value: PRIM_FLOAT_SQRT as u64 },
    ).push(
        Constant { group: "primitives"@, name: "PRIM_BLOCK_VALUE_0"@, value: PRIM_BLOCK_VALUE_0 as u64 },
    ).push(
        Constant { group: "primitives"@, name: "PRIM_BLOCK_VALUE_1"@, value: PRIM_BLOCK_VALUE_1 as u64 },
    ).push(
        Constant { group: "primitives"@, name: "PRIM_BLOCK_VALUE_2"@, value: PRIM_BLOCK_VALUE_2 as u64 },
    ).push(
        Constant { group: "primitives"@, name: "PRIM_BLOCK_VALUE_3"@, value: PRIM_BLOCK_VALUE_3 as u64 },
    ).push(
        Constant { group: "primitives"@, name: "PRIM_BLOCK_VALUE_4"@, value: PRIM_BLOCK_VALUE_4 as u64 },
    ).push(
        Constant { group: "primitives"@, name: "PRIM_BLOCK_VALUE_ARGS"@, value: PRIM_BLOCK_VALUE_ARGS as u64 },
    ).push(
        Constant { group: "primitives"@, name: "PRIM_TRANSFER_TO"@, value: PRIM_TRANSFER_TO as u64 },
    ).push(
        Constant { group: "primitives"@, name: "PRIM_SEMAPHORE_WAIT"@, value: PRIM_SEMAPHORE_WAIT as u64 },
    ).push(
        Constant { group: "primitives"@, name: "PRIM_SEMAPHORE_SIGNAL"@, value: PRIM_SEMAPHORE_SIGNAL as u64 },
    ).push(
        Constant { group: "primitives"@, name: "PRIM_YIELD"@, value: PRIM_YIELD as u64 },
    )
}

fn add_primitives_table_b(v: &mut Vec<(&'static str, &'static str, u64)>)
    ensures
        constant_views(final(v)@) == primitives_table_b(constant_views(old(v)@)),
{
    reveal(primitives_table_b);
    add_constant(v, "primitives", "PRIM_INT_BIT_XOR", PRIM_INT_BIT_XOR as u64);
    add_constant(v, "primitives", "PRIM_INT_BIT_SHIFT", PRIM_INT_BIT_SHIFT as u64);
    add_constant(v, "primitives", "PRIM_INT_AS_FLOAT", PRIM_INT_AS_FLOAT as u64);
    add_constant(v, "primitives", "PRIM_FLOAT_ADD", PRIM_FLOAT_ADD as u64);
    add_constant(v, "primitives", "PRIM_FLOAT_SUB", PRIM_FLOAT_SUB as u64);
    add_constant(v, "primitives", "PRIM_FLOAT_MUL", PRIM_FLOAT_MUL as u64);
    add_constant(v, "primitives", "PRIM_FLOAT_DIV", PRIM_FLOAT_DIV as u64);
    add_constant(v, "primitives", "PRIM_FLOAT_LT", PRIM_FLOAT_LT as u64);
    add_constant(v, "primitives", "PRIM_FLOAT_GT", PRIM_FLOAT_GT as u64);
    add_constant(v, "primitives", "PRIM_FLOAT_LE", PRIM_FLOAT_LE as u64);
    add_constant(v, "primitives", "PRIM_FLOAT_GE", PRIM_FLOAT_GE as u64);
    add_constant(v, "primitives", "PRIM_FLOAT_EQ", PRIM_FLOAT_EQ as u64);
    add_constant(v, "primitives", "PRIM_FLOAT_TRUNCATED", PRIM_FLOAT_TRUNCATED as u64);
    add_constant(v, "primitives", "PRIM_FLOAT_SQRT", PRIM_FLOAT_SQRT as u64);
    add_constant(v, "primitives", "PRIM_BLOCK_VALUE_0", PRIM_BLOCK_VALUE_0 as u64);
    add_constant(v, "primitives", "PRIM_BLOCK_VALUE_1", PRIM_BLOCK_VALUE_1 as u64);
    add_constant(v, "primitives", "PRIM_BLOCK_VALUE_2", PRIM_BLOCK_VALUE_2 as u64);
    add_constant(v, "primitives", "PRIM_BLOCK_VALUE_3", PRIM_BLOCK_VALUE_3 as u64);
    add_constant(v, "primitives", "PRIM_BLOCK_VALUE_4", PRIM_BLOCK_VALUE_4 as u64);
    add_constant(v, "primitives", "PRIM_BLOCK_VALUE_ARGS", PRIM_BLOCK_VALUE_ARGS as u64);
    add_constant(v, "primitives", "PRIM_TRANSFER_TO", PRIM_TRANSFER_TO as u64);
    add_constant(v, "primitives", "PRIM_SEMAPHORE_WAIT", PRIM_SEMAPHORE_WAIT as u64);
    add_constant(v, "primitives", "PRIM_SEMAPHORE_SIGNAL", PRIM_SEMAPHORE_SIGNAL as u64);
    add_constant(v, "primitives", "PRIM_YIELD", PRIM_YIELD as u64);
}

#[verifier::opaque]
pub open spec fn primitives_table_c(v: Seq<Constant>) -> Seq<Constant> {
    v.push(
        Constant { group: "primitives"@, name: "PRIM_PROCESS_SUSPEND"@, value: PRIM_PROCESS_SUSPEND as u64 },
    ).push(
        Constant { group: "primitives"@, name: "PRIM_PROCESS_RESUME"@, value: PRIM_PROCESS_RESUME as u64 },
    ).push(
        Constant { group: "primitives"@, name: "PRIM_PROCESS_TERMINATE"@, value: PRIM_PROCESS_TERMINATE as u64 },
    ).push(
        Constant { group: "primitives"@, name: "PRIM_FIND_HANDLER"@, value: PRIM_FIND_HANDLER as u64 },
    ).push(
        Constant { group: "primitives"@, name: "PRIM_UNWIND_TO"@, value: PRIM_UNWIND_TO as u64 },
    ).push(
        Constant { group: "primitives"@, name: "PRIM_HANDLER_INFO"@, value: PRIM_HANDLER_INFO as u64 },
    ).push(
        Constant { group: "primitives"@, name: "PRIM_SET_HANDLER_STATE"@, value: PRIM_SET_HANDLER_STATE as u64 },
    ).push(
        Constant { group: "primitives"@, name: "PRIM_SIGNAL_CONTEXT"@, value: PRIM_SIGNAL_CONTEXT as u64 },
    ).push(
        Constant { group: "primitives"@, name: "PRIM_FILE_OPEN"@, value: PRIM_FILE_OPEN as u64 },
    ).push(
        Constant { group: "primitives"@, name: "PRIM_FILE_CLOSE"@, value: PRIM_FILE_CLOSE as u64 },
    ).push(
        Constant { group: "primitives"@, name: "PRIM_FILE_READ"@, value: PRIM_FILE_READ as u64 },
    ).push(
        Constant { group: "primitives"@, name: "PRIM_FILE_WRITE"@, value: PRIM_FILE_WRITE as u64 },
    ).push(
        Constant { group: "primitives"@, name: "PRIM_FILE_POSITION"@, value: PRIM_FILE_POSITION as u64 },
    ).push(
        Constant { group: "primitives"@, name: "PRIM_FILE_SET_POSITION"@, value: PRIM_FILE_SET_POSITION as u64 },
    ).push(
        Constant { group: "primitives"@, name: "PRIM_FILE_SIZE"@, value: PRIM_FILE_SIZE as u64 },
    ).push(
        Constant { group: "primitives"@, name: "PRIM_FILE_DELETE"@, value: PRIM_FILE_DELETE as u64 },
    ).push(
        Constant { group: "primitives"@, name: "PRIM_STDIO_WRITE"@, value: PRIM_STDIO_WRITE as u64 },
    ).push(
        Constant { group: "primitives"@, name: "PRIM_STDIO_READ"@, value: PRIM_STDIO_READ as u64 },
    ).push(
        Constant { group: "primitives"@, name: "PRIM_CLOCK_MONOTONIC_MS"@, value: PRIM_CLOCK_MONOTONIC_MS as u64 },
    ).push(
        Constant { group: "primitives"@, name: "PRIM_CLOCK_WALL_MS"@, value: PRIM_CLOCK_WALL_MS as u64 },
    ).push(
        Constant { group: "primitives"@, name: "PRIM_SIGNAL_AT_MS"@, value: PRIM_SIGNAL_AT_MS as u64 },
    ).push(
        Constant { group: "primitives"@, name: "PRIM_CLOCK_MONOTONIC_NS"@, value: PRIM_CLOCK_MONOTONIC_NS as u64 },
    ).push(
        Constant { group: "primitives"@, name: "PRIM_NEXT_EVENT"@, value: PRIM_NEXT_EVENT as u64 },
    ).push(
        Constant { group: "primitives"@, name: "PRIM_PIXEL_BLIT"@, value: PRIM_PIXEL_BLIT as u64 },
    )
}

fn add_primitives_table_c(v: &mut Vec<(&'static str, &'static str, u64)>)
    ensures
        constant_views(final(v)@) == primitives_table_c(constant_views(old(v)@)),
{
    reveal(primitives_table_c);
    add_constant(v, "primitives", "PRIM_PROCESS_SUSPEND", PRIM_PROCESS_SUSPEND as u64);
    add_constant(v, "primitives", "PRIM_PROCESS_RESUME", PRIM_PROCESS_RESUME as u64);
    add_constant(v, "primitives", "PRIM_PROCESS_TERMINATE", PRIM_PROCESS_TERMINATE as u64);
    add_constant(v, "primitives", "PRIM_FIND_HANDLER", PRIM_FIND_HANDLER as u64);
    add_constant(v, "primitives", "PRIM_UNWIND_TO", PRIM_UNWIND_TO as u64);
    add_constant(v, "primitives", "PRIM_HANDLER_INFO", PRIM_HANDLER_INFO as u64);
    add_constant(v, "primitives", "PRIM_SET_HANDLER_STATE", PRIM_SET_HANDLER_STATE as u64);
    add_constant(v, "primitives", "PRIM_SIGNAL_CONTEXT", PRIM_SIGNAL_CONTEXT as u64);
    add_constant(v, "primitives", "PRIM_FILE_OPEN", PRIM_FILE_OPEN as u64);
    add_constant(v, "primitives", "PRIM_FILE_CLOSE", PRIM_FILE_CLOSE as u64);
    add_constant(v, "primitives", "PRIM_FILE_READ", PRIM_FILE_READ as u64);
    add_constant(v, "primitives", "PRIM_FILE_WRITE", PRIM_FILE_WRITE as u64);
    add_constant(v, "primitives", "PRIM_FILE_POSITION", PRIM_FILE_POSITION as u64);
    add_constant(v, "primitives", "PRIM_FILE_SET_POSITION", PRIM_FILE_SET_POSITION as u64);
    add_constant(v, "primitives", "PRIM_FILE_SIZE", PRIM_FILE_SIZE as u64);
    add_constant(v, "primitives", "PRIM_FILE_DELETE", PRIM_FILE_DELETE as u64);
    add_constant(v, "primitives", "PRIM_STDIO_WRITE", PRIM_STDIO_WRITE as u64);
    add_constant(v, "primitives", "PRIM_STDIO_READ", PRIM_STDIO_READ as u64);
    add_constant(v, "primitives", "PRIM_CLOCK_MONOTONIC_MS", PRIM_CLOCK_MONOTONIC_MS as u64);
    add_constant(v, "primitives", "PRIM_CLOCK_WALL_MS", PRIM_CLOCK_WALL_MS as u64);
    add_constant(v, "primitives", "PRIM_SIGNAL_AT_MS", PRIM_SIGNAL_AT_MS as u64);
    add_constant(v, "primitives", "PRIM_CLOCK_MONOTONIC_NS", PRIM_CLOCK_MONOTONIC_NS as u64);
    add_constant(v, "primitives", "PRIM_NEXT_EVENT", PRIM_NEXT_EVENT as u64);
    add_constant(v, "primitives", "PRIM_PIXEL_BLIT", PRIM_PIXEL_BLIT as u64);
}

#[verifier::opaque]
pub open spec fn primitives_table_d(v: Seq<Constant>) -> Seq<Constant> {
    v.push(
        Constant { group: "primitives"@, name: "PRIM_BITBLT"@, value: PRIM_BITBLT as u64 },
    ).push(
        Constant { group: "primitives"@, name: "PRIM_SAVE_FORM"@, value: PRIM_SAVE_FORM as u64 },
    ).push(
        Constant { group: "primitives"@, name: "PRIM_POST_EVENT"@, value: PRIM_POST_EVENT as u64 },
    ).push(
        Constant { group: "primitives"@, name: "PRIM_SNAPSHOT"@, value: PRIM_SNAPSHOT as u64 },
    ).push(
        Constant { group: "primitives"@, name: "PRIM_REGISTER_CLASS"@, value: PRIM_REGISTER_CLASS as u64 },
    ).push(
        Constant { group: "primitives"@, name: "PRIM_METHOD_INSTALL"@, value: PRIM_METHOD_INSTALL as u64 },
    ).push(
        Constant { group: "primitives"@, name: "PRIM_FLUSH_CACHES"@, value: PRIM_FLUSH_CACHES as u64 },
    ).push(
        Constant { group: "primitives"@, name: "PRIM_FRAME_INFO"@, value: PRIM_FRAME_INFO as u64 },
    ).push(
        Constant { group: "primitives"@, name: "PRIM_PROFILER_START"@, value: PRIM_PROFILER_START as u64 },
    ).push(
        Constant { group: "primitives"@, name: "PRIM_PROFILER_STOP"@, value: PRIM_PROFILER_STOP as u64 },
    ).push(
        Constant { group: "primitives"@, name: "PRIM_PROFILER_REPORT"@, value: PRIM_PROFILER_REPORT as u64 },
    ).push(
        Constant { group: "primitives"@, name: "PRIM_PROFILER_TREE"@, value: PRIM_PROFILER_TREE as u64 },
    ).push(
        Constant { group: "primitives"@, name: "PRIM_VM_COUNTERS"@, value: PRIM_VM_COUNTERS as u64 },
    ).push(
        Constant { group: "primitives"@, name: "PRIM_VM_COUNTERS_RESET"@, value: PRIM_VM_COUNTERS_RESET as u64 },
    ).push(
        Constant { group: "primitives"@, name: "PRIM_PROFILER_GATE"@, value: PRIM_PROFILER_GATE as u64 },
    ).push(
        Constant { group: "primitives"@, name: "PRIM_TABLE_SIZE"@, value: PRIM_TABLE_SIZE as u64 },
    )
}

fn add_primitives_table_d(v: &mut Vec<(&'static str, &'static str, u64)>)
    ensures
        constant_views(final(v)@) == primitives_table_d(constant_views(old(v)@)),
{
    reveal(primitives_table_d);
    add_constant(v, "primitives", "PRIM_BITBLT", PRIM_BITBLT as u64);
    add_constant(v, "primitives", "PRIM_SAVE_FORM", PRIM_SAVE_FORM as u64);
    add_constant(v, "primitives", "PRIM_POST_EVENT", PRIM_POST_EVENT as u64);
    add_constant(v, "primitives", "PRIM_SNAPSHOT", PRIM_SNAPSHOT as u64);
    add_constant(v, "primitives", "PRIM_REGISTER_CLASS", PRIM_REGISTER_CLASS as u64);
    add_constant(v, "primitives", "PRIM_METHOD_INSTALL", PRIM_METHOD_INSTALL as u64);
    add_constant(v, "primitives", "PRIM_FLUSH_CACHES", PRIM_FLUSH_CACHES as u64);
    add_constant(v, "primitives", "PRIM_FRAME_INFO", PRIM_FRAME_INFO as u64);
    add_constant(v, "primitives", "PRIM_PROFILER_START", PRIM_PROFILER_START as u64);
    add_constant(v, "primitives", "PRIM_PROFILER_STOP", PRIM_PROFILER_STOP as u64);
    add_constant(v, "primitives", "PRIM_PROFILER_REPORT", PRIM_PROFILER_REPORT as u64);
    add_constant(v, "primitives", "PRIM_PROFILER_TREE", PRIM_PROFILER_TREE as u64);
    add_constant(v, "primitives", "PRIM_VM_COUNTERS", PRIM_VM_COUNTERS as u64);
    add_constant(v, "primitives", "PRIM_VM_COUNTERS_RESET", PRIM_VM_COUNTERS_RESET as u64);
    add_constant(v, "primitives", "PRIM_PROFILER_GATE", PRIM_PROFILER_GATE as u64);
    add_constant(v, "primitives", "PRIM_TABLE_SIZE", PRIM_TABLE_SIZE as u64);
}

#[verifier::opaque]
pub open spec fn image_header_table(v: Seq<Constant>) -> Seq<Constant> {
    v.push(
        Constant { group: "image_header"@, name: "IMG_MAGIC_OFFSET"@, value: IMG_MAGIC_OFFSET as u64 },
    ).push(
        Constant { group: "image_header"@, name: "IMG_VERSION_OFFSET"@, value: IMG_VERSION_OFFSET as u64 },
    ).push(
        Constant { group: "image_header"@, name: "IMG_FLAGS_OFFSET"@, value: IMG_FLAGS_OFFSET as u64 },
    ).push(
        Constant { group: "image_header"@, name: "IMG_SAVED_BASE_OFFSET"@, value: IMG_SAVED_BASE_OFFSET as u64 },
    ).push(
        Constant { group: "image_header"@, name: "IMG_OLD_SPACE_SIZE_OFFSET"@, value: IMG_OLD_SPACE_SIZE_OFFSET as u64 },
    ).push(
        Constant { group: "image_header"@, name: "IMG_SPECIAL_OBJECTS_OFFSET"@, value: IMG_SPECIAL_OBJECTS_OFFSET as u64 },
    ).push(
        Constant { group: "image_header"@, name: "IMG_CLASS_LIST_OFFSET"@, value: IMG_CLASS_LIST_OFFSET as u64 },
    ).push(
        Constant { group: "image_header"@, name: "IMG_ACTIVE_PROCESS_OFFSET"@, value: IMG_ACTIVE_PROCESS_OFFSET as u64 },
    ).push(
        Constant { group: "image_header"@, name: "IMG_RESERVED_OFFSET"@, value: IMG_RESERVED_OFFSET as u64 },
    ).push(
        Constant { group: "image_header"@, name: "IMG_HEADER_SIZE"@, value: IMG_HEADER_SIZE as u64 },
    ).push(
        Constant { group: "image_header"@, name: "IMG_MAGIC"@, value: IMG_MAGIC as u64 },
    )
}

fn add_image_header_table(v: &mut Vec<(&'static str, &'static str, u64)>)
    ensures
        constant_views(final(v)@) == image_header_table(constant_views(old(v)@)),
{
    reveal(image_header_table);
    add_constant(v, "image_header", "IMG_MAGIC_OFFSET", IMG_MAGIC_OFFSET as u64);
    add_constant(v, "image_header", "IMG_VERSION_OFFSET", IMG_VERSION_OFFSET as u64);
    add_constant(v, "image_header", "IMG_FLAGS_OFFSET", IMG_FLAGS_OFFSET as u64);
    add_constant(v, "image_header", "IMG_SAVED_BASE_OFFSET", IMG_SAVED_BASE_OFFSET as u64);
    add_constant(v, "image_header", "IMG_OLD_SPACE_SIZE_OFFSET", IMG_OLD_SPACE_SIZE_OFFSET as u64);
    add_constant(v, "image_header", "IMG_SPECIAL_OBJECTS_OFFSET", IMG_SPECIAL_OBJECTS_OFFSET as u64);
    add_constant(v, "image_header", "IMG_CLASS_LIST_OFFSET", IMG_CLASS_LIST_OFFSET as u64);
    add_constant(v, "image_header", "IMG_ACTIVE_PROCESS_OFFSET", IMG_ACTIVE_PROCESS_OFFSET as u64);
    add_constant(v, "image_header", "IMG_RESERVED_OFFSET", IMG_RESERVED_OFFSET as u64);
    add_constant(v, "image_header", "IMG_HEADER_SIZE", IMG_HEADER_SIZE as u64);
    add_constant(v, "image_header", "IMG_MAGIC", IMG_MAGIC as u64);
}

#[verifier::opaque]
pub open spec fn limits_table(v: Seq<Constant>) -> Seq<Constant> {
    v.push(
        Constant { group: "limits"@, name: "MAX_FRAME_SLOTS"@, value: MAX_FRAME_SLOTS as u64 },
    ).push(
        Constant { group: "limits"@, name: "MAX_METHOD_INSTRUCTIONS"@, value: MAX_METHOD_INSTRUCTIONS as u64 },
    ).push(
        Constant { group: "limits"@, name: "MAX_LITERALS"@, value: MAX_LITERALS as u64 },
    ).push(
        Constant { group: "limits"@, name: "MAX_SEND_SITES"@, value: MAX_SEND_SITES as u64 },
    ).push(
        Constant { group: "limits"@, name: "LOOKUP_CACHE_SIZE"@, value: LOOKUP_CACHE_SIZE as u64 },
    ).push(
        Constant { group: "limits"@, name: "INITIAL_STACK_BYTES"@, value: INITIAL_STACK_BYTES as u64 },
    ).push(
        Constant { group: "limits"@, name: "DEFAULT_MAX_STACK_BYTES"@, value: DEFAULT_MAX_STACK_BYTES as u64 },
    ).push(
        Constant { group: "limits"@, name: "YOUNG_SPACE_BYTES_DEFAULT"@, value: YOUNG_SPACE_BYTES_DEFAULT as u64 },
    ).push(
        Constant { group: "limits"@, name: "LARGE_OBJECT_BYTES"@, value: LARGE_OBJECT_BYTES as u64 },
    ).push(
        Constant { group: "limits"@, name: "TENURE_AGE"@, value: TENURE_AGE as u64 },
    )
}

fn add_limits_table(v: &mut Vec<(&'static str, &'static str, u64)>)
    ensures
        constant_views(final(v)@) == limits_table(constant_views(old(v)@)),
{
    reveal(limits_table);
    add_constant(v, "limits", "MAX_FRAME_SLOTS", MAX_FRAME_SLOTS as u64);
    add_constant(v, "limits", "MAX_METHOD_INSTRUCTIONS", MAX_METHOD_INSTRUCTIONS as u64);
    add_constant(v, "limits", "MAX_LITERALS", MAX_LITERALS as u64);
    add_constant(v, "limits", "MAX_SEND_SITES", MAX_SEND_SITES as u64);
    add_constant(v, "limits", "LOOKUP_CACHE_SIZE", LOOKUP_CACHE_SIZE as u64);
    add_constant(v, "limits", "INITIAL_STACK_BYTES", INITIAL_STACK_BYTES as u64);
    add_constant(v, "limits", "DEFAULT_MAX_STACK_BYTES", DEFAULT_MAX_STACK_BYTES as u64);
    add_constant(v, "limits", "YOUNG_SPACE_BYTES_DEFAULT", YOUNG_SPACE_BYTES_DEFAULT as u64);
    add_constant(v, "limits", "LARGE_OBJECT_BYTES", LARGE_OBJECT_BYTES as u64);
    add_constant(v, "limits", "TENURE_AGE", TENURE_AGE);
}

#[verifier::opaque]
pub open spec fn opcodes_table_a(v: Seq<Constant>) -> Seq<Constant> {
    v.push(
        Constant { group: "opcodes"@, name: "NOP"@, value: OP_NOP as u64 },
    ).push(
        Constant { group: "opcodes"@, name: "BREAK"@, value: OP_BREAK as u64 },
    ).push(
        Constant { group: "opcodes"@, name: "MOVE"@, value: OP_MOVE as u64 },
    ).push(
        Constant { group: "opcodes"@, name: "LOADK"@, value: OP_LOADK as u64 },
    ).push(
        Constant { group: "opcodes"@, name: "LOADINT"@, value: OP_LOADINT as u64 },
    ).push(
        Constant { group: "opcodes"@, name: "LOADNIL"@, value: OP_LOADNIL as u64 },
    ).push(
        Constant { group: "opcodes"@, name: "LOADTRUE"@, value: OP_LOADTRUE as u64 },
    ).push(
        Constant { group: "opcodes"@, name: "LOADFALSE"@, value: OP_LOADFALSE as u64 },
    ).push(
        Constant { group: "opcodes"@, name: "LOADSELF"@, value: OP_LOADSELF as u64 },
    ).push(
        Constant { group: "opcodes"@, name: "GETIVAR"@, value: OP_GETIVAR as u64 },
    ).push(
        Constant { group: "opcodes"@, name: "SETIVAR"@, value: OP_SETIVAR as u64 },
    ).push(
        Constant { group: "opcodes"@, name: "GETBOX"@, value: OP_GETBOX as u64 },
    ).push(
        Constant { group: "opcodes"@, name: "SETBOX"@, value: OP_SETBOX as u64 },
    ).push(
        Constant { group: "opcodes"@, name: "MKBOX"@, value: OP_MKBOX as u64 },
    ).push(
        Constant { group: "opcodes"@, name: "SEND"@, value: OP_SEND as u64 },
    ).push(
        Constant { group: "opcodes"@, name: "SENDSUPER"@, value: OP_SENDSUPER as u64 },
    ).push(
        Constant { group: "opcodes"@, name: "RET"@, value: OP_RET as u64 },
    ).push(
        Constant { group: "opcodes"@, name: "RETSELF"@, value: OP_RETSELF as u64 },
    ).push(
        Constant { group: "opcodes"@, name: "NLR"@, value: OP_NLR as u64 },
    ).push(
        Constant { group: "opcodes"@, name: "PRIM"@, value: OP_PRIM as u64 },
    ).push(
        Constant { group: "opcodes"@, name: "MKCLOSURE"@, value: OP_MKCLOSURE as u64 },
    ).push(
        Constant { group: "opcodes"@, name: "CAPTURE"@, value: OP_CAPTURE as u64 },
    ).push(
        Constant { group: "opcodes"@, name: "JUMP"@, value: OP_JUMP as u64 },
    ).push(
        Constant { group: "opcodes"@, name: "JUMPTRUE"@, value: OP_JUMPTRUE as u64 },
    )
}

fn add_opcodes_table_a(v: &mut Vec<(&'static str, &'static str, u64)>)
    ensures
        constant_views(final(v)@) == opcodes_table_a(constant_views(old(v)@)),
{
    reveal(opcodes_table_a);
    add_constant(v, "opcodes", "NOP", OP_NOP as u64);
    add_constant(v, "opcodes", "BREAK", OP_BREAK as u64);
    add_constant(v, "opcodes", "MOVE", OP_MOVE as u64);
    add_constant(v, "opcodes", "LOADK", OP_LOADK as u64);
    add_constant(v, "opcodes", "LOADINT", OP_LOADINT as u64);
    add_constant(v, "opcodes", "LOADNIL", OP_LOADNIL as u64);
    add_constant(v, "opcodes", "LOADTRUE", OP_LOADTRUE as u64);
    add_constant(v, "opcodes", "LOADFALSE", OP_LOADFALSE as u64);
    add_constant(v, "opcodes", "LOADSELF", OP_LOADSELF as u64);
    add_constant(v, "opcodes", "GETIVAR", OP_GETIVAR as u64);
    add_constant(v, "opcodes", "SETIVAR", OP_SETIVAR as u64);
    add_constant(v, "opcodes", "GETBOX", OP_GETBOX as u64);
    add_constant(v, "opcodes", "SETBOX", OP_SETBOX as u64);
    add_constant(v, "opcodes", "MKBOX", OP_MKBOX as u64);
    add_constant(v, "opcodes", "SEND", OP_SEND as u64);
    add_constant(v, "opcodes", "SENDSUPER", OP_SENDSUPER as u64);
    add_constant(v, "opcodes", "RET", OP_RET as u64);
    add_constant(v, "opcodes", "RETSELF", OP_RETSELF as u64);
    add_constant(v, "opcodes", "NLR", OP_NLR as u64);
    add_constant(v, "opcodes", "PRIM", OP_PRIM as u64);
    add_constant(v, "opcodes", "MKCLOSURE", OP_MKCLOSURE as u64);
    add_constant(v, "opcodes", "CAPTURE", OP_CAPTURE as u64);
    add_constant(v, "opcodes", "JUMP", OP_JUMP as u64);
    add_constant(v, "opcodes", "JUMPTRUE", OP_JUMPTRUE as u64);
}

#[verifier::opaque]
pub open spec fn opcodes_table_b(v: Seq<Constant>) -> Seq<Constant> {
    v.push(
        Constant { group: "opcodes"@, name: "JUMPFALSE"@, value: OP_JUMPFALSE as u64 },
    ).push(
        Constant { group: "opcodes"@, name: "ADD"@, value: OP_ADD as u64 },
    ).push(
        Constant { group: "opcodes"@, name: "SUB"@, value: OP_SUB as u64 },
    ).push(
        Constant { group: "opcodes"@, name: "MUL"@, value: OP_MUL as u64 },
    ).push(
        Constant { group: "opcodes"@, name: "DIV"@, value: OP_DIV as u64 },
    ).push(
        Constant { group: "opcodes"@, name: "MOD"@, value: OP_MOD as u64 },
    ).push(
        Constant { group: "opcodes"@, name: "LT"@, value: OP_LT as u64 },
    ).push(
        Constant { group: "opcodes"@, name: "GT"@, value: OP_GT as u64 },
    ).push(
        Constant { group: "opcodes"@, name: "LE"@, value: OP_LE as u64 },
    ).push(
        Constant { group: "opcodes"@, name: "GE"@, value: OP_GE as u64 },
    ).push(
        Constant { group: "opcodes"@, name: "EQNUM"@, value: OP_EQNUM as u64 },
    ).push(
        Constant { group: "opcodes"@, name: "AT"@, value: OP_AT as u64 },
    ).push(
        Constant { group: "opcodes"@, name: "ATPUT"@, value: OP_ATPUT as u64 },
    ).push(
        Constant { group: "opcodes"@, name: "SIZE"@, value: OP_SIZE as u64 },
    ).push(
        Constant { group: "opcodes"@, name: "CLASSOF"@, value: OP_CLASSOF as u64 },
    ).push(
        Constant { group: "opcodes"@, name: "NOT"@, value: OP_NOT as u64 },
    ).push(
        Constant { group: "opcodes"@, name: "IDEQ"@, value: OP_IDEQ as u64 },
    )
}

fn add_opcodes_table_b(v: &mut Vec<(&'static str, &'static str, u64)>)
    ensures
        constant_views(final(v)@) == opcodes_table_b(constant_views(old(v)@)),
{
    reveal(opcodes_table_b);
    add_constant(v, "opcodes", "JUMPFALSE", OP_JUMPFALSE as u64);
    add_constant(v, "opcodes", "ADD", OP_ADD as u64);
    add_constant(v, "opcodes", "SUB", OP_SUB as u64);
    add_constant(v, "opcodes", "MUL", OP_MUL as u64);
    add_constant(v, "opcodes", "DIV", OP_DIV as u64);
    add_constant(v, "opcodes", "MOD", OP_MOD as u64);
    add_constant(v, "opcodes", "LT", OP_LT as u64);
    add_constant(v, "opcodes", "GT", OP_GT as u64);
    add_constant(v, "opcodes", "LE", OP_LE as u64);
    add_constant(v, "opcodes", "GE", OP_GE as u64);
    add_constant(v, "opcodes", "EQNUM", OP_EQNUM as u64);
    add_constant(v, "opcodes", "AT", OP_AT as u64);
    add_constant(v, "opcodes", "ATPUT", OP_ATPUT as u64);
    add_constant(v, "opcodes", "SIZE", OP_SIZE as u64);
    add_constant(v, "opcodes", "CLASSOF", OP_CLASSOF as u64);
    add_constant(v, "opcodes", "NOT", OP_NOT as u64);
    add_constant(v, "opcodes", "IDEQ", OP_IDEQ as u64);
}

/// Every constant of the machine's binary contract, group by group.
pub open spec fn treaty_table() -> Seq<Constant> {
    let t0 = tags_table(Seq::<Constant>::empty());
    let t1 = header_table(t0);
    let t2 = formats_table(t1);
    let t3 = frame_table(t2);
    let t4 = stack_slots_table(t3);
    let t5 = method_dictionary_slots_table(t4);
    let t6 = linked_list_slots_table(t5);
    let t7 = handler_slots_table(t6);
    let t8 = specialized_selectors_table(t7);
    let t9 = classes_table_a(t8);
    let t10 = classes_table_b(t9);
    let t11 = behavior_slots_table(t10);
    let t12 = process_slots_table(t11);
    let t13 = semaphore_slots_table(t12);
    let t14 = scheduler_slots_table(t13);
    let t15 = compiled_method_slots_table(t14);
    let t16 = compiled_block_slots_table(t15);
    let t17 = method_header_table(t16);
    let t18 = block_info_table(t17);
    let t19 = closure_slots_table(t18);
    let t20 = send_site_table(t19);
    let t21 = special_objects_table(t20);
    let t22 = primitives_table_a(t21);
    let t23 = primitives_table_b(t22);
    let t24 = primitives_table_c(t23);
    let t25 = primitives_table_d(t24);
    let t26 = image_header_table(t25);
    let t27 = limits_table(t26);
    let t28 = opcodes_table_a(t27);
    let t29 = opcodes_table_b(t28);
    t29
}

/// Every constant as (group, name, value).
pub fn all_constants() -> (v: Vec<(&'static str, &'static str, u64)>)
    ensures
        constant_views(v@) == treaty_table(),
{
    let mut v: Vec<(&'static str, &'static str, u64)> = Vec::new();
    assert(constant_views(v@) =~= Seq::empty());
    add_tags_table(&mut v);
    add_header_table(&mut v);
    add_formats_table(&mut v);
    add_frame_table(&mut v);
    add_stack_slots_table(&mut v);
    add_method_dictionary_slots_table(&mut v);
    add_linked_list_slots_table(&mut v);
    add_handler_slots_table(&mut v);
    add_specialized_selectors_table(&mut v);
    add_classes_table_a(&mut v);
    add_classes_table_b(&mut v);
    add_behavior_slots_table(&mut v);
    add_process_slots_table(&mut v);
    add_semaphore_slots_table(&mut v);
    add_scheduler_slots_table(&mut v);
    add_compiled_method_slots_table(&mut v);
    add_compiled_block_slots_table(&mut v);
    add_method_header_table(&mut v);
    add_block_info_table(&mut v);
    add_closure_slots_table(&mut v);
    add_send_site_table(&mut v);
    add_special_objects_table(&mut v);
    add_primitives_table_a(&mut v);
    add_primitives_table_b(&mut v);
    add_primitives_table_c(&mut v);
    add_primitives_table_d(&mut v);
    add_image_header_table(&mut v);
    add_limits_table(&mut v);
    add_opcodes_table_a(&mut v);
    add_opcodes_table_b(&mut v);
    v
}

/// An ASCII letter in lower case.
pub open spec fn lower(c: char) -> char {
    if 'A' <= c <= 'Z' {
        ((c as u8) + 32) as char
    } else {
        c
    }
}

/// An ASCII letter in upper case.
pub open spec fn upper(c: char) -> char {
    if 'a' <= c <= 'z' {
        ((c as u8) - 32) as char
    } else {
        c
    }
}

/// A name with underscores from character `i` on in camel case: lower case
/// throughout, but for the letter after each underscore.
pub open spec fn camel(name: Seq<char>, i: int, after: bool) -> Seq<char>
    decreases name.len() - i,
{
    if i < 0 || i >= name.len() {
        Seq::empty()
    } else if name[i] == '_' {
        camel(name, i + 1, true)
    } else {
        seq![
            if after {
                upper(lower(name[i]))
            } else {
                lower(name[i])
            },
        ] + camel(name, i + 1, false)
    }
}

/// The name that a constant's selector is made of: opcodes are marked.
pub open spec fn full_name(c: Constant) -> Seq<char> {
    if c.group == "opcodes"@ {
        "OP_"@ + c.name
    } else {
        c.name
    }
}

/// The method that answers a constant.
pub open spec fn constant_method(c: Constant) -> Seq<char> {
    camel(full_name(c), 0, false) + "\n\t\""@ + c.group + "::"@ + c.name + "\"\n\t^"@
        + crate::text::dec(c.value as int) + "!\n"@
}

/// The methods of the first `n` constants.
pub open spec fn constant_methods(t: Seq<Constant>, n: int) -> Seq<char>
    decreases n,
{
    if n <= 0 {
        Seq::empty()
    } else {
        constant_methods(t, n - 1) + constant_method(t[n - 1])
    }
}

/// The class definition before the methods.
pub open spec fn treaty_head() -> Seq<char> {
    "\"GENERATED from treaty.json by `cargo run --bin gen_treaty_st` — DO NOT EDIT.\nThe Treaty (SPEC Appendix A): the binary contract between the VM and the\ncompiler. One class-side method per constant.\"\n\nObject subclass: #Treaty\n\tinstanceVariableNames: ''\n\tclassVariableNames: ''\n\tpoolDictionaries: ''\n\tcategory: 'Smallishtalk-Compiler'!\n\n!Treaty class methodsFor: 'constants'!\n"@
}

/// `String::push` appends a character.
pub assume_specification[ String::push ](s: &mut String, c: char)
    ensures
        final(s)@ == old(s)@.push(c),
;

fn lowered(c: char) -> (r: char)
    ensures
        r == lower(c),
{
    if 'A' <= c && c <= 'Z' {
        ((c as u8) + 32) as char
    } else {
        c
    }
}

fn raised(c: char) -> (r: char)
    ensures
        r == upper(c),
{
    if 'a' <= c && c <= 'z' {
        ((c as u8) - 32) as char
    } else {
        c
    }
}

fn append_camel(s: &mut String, name: &str)
    ensures
        final(s)@ == old(s)@ + camel(name@, 0, false),
{
    let n: usize = name.unicode_len();
    let mut i: usize = 0;
    let mut after = false;
    let ghost whole = camel(name@, 0, false);
    while i < n
        invariant
            i <= n,
            n == name@.len(),
            whole == camel(name@, 0, false),
            old(s)@ + whole == s@ + camel(name@, i as int, after),
        decreases n - i,
    {
        let c = name.get_char(i);
        if c == '_' {
            after = true;
        } else {
            let ghost before = s@;
            let d = if after {
                raised(lowered(c))
            } else {
                lowered(c)
            };
            s.push(d);
            assert(before + (seq![d] + camel(name@, i + 1, false)) =~= s@ + camel(
                name@,
                i + 1,
                false,
            ));
            after = false;
        }
        i = i + 1;
    }
    assert(s@ + camel(name@, n as int, after) =~= s@);
}

fn append_method(s: &mut String, group: &str, name: &str, value: u64)
    ensures
        final(s)@ == old(s)@ + constant_method(Constant { group: group@, name: name@, value }),
{
    let ghost c = Constant { group: group@, name: name@, value };
    if same_text(group, "opcodes") {
        let mut full = crate::text::text("OP_");
        full.append(name);
        append_camel(s, full.as_str());
    } else {
        append_camel(s, name);
    }
    s.append("\n\t\"");
    s.append(group);
    s.append("::");
    s.append(name);
    s.append("\"\n\t^");
    crate::text::append_dec(s, value);
    s.append("!\n");
    assert(s@ =~= old(s)@ + constant_method(c));
}

fn same_text(a: &str, b: &str) -> (r: bool)
    ensures
        r == (a@ == b@),
{
    let x = crate::text::text(a);
    let y = crate::text::text(b);
    x == y
}

/// The constants as a Smalltalk class: one class-side method each, its name
/// in camel case.
pub fn treaty_st_source() -> (s: String)
    ensures
        s@ == treaty_head() + constant_methods(treaty_table(), treaty_table().len() as int)
            + " !\n"@,
{
    let v = all_constants();
    let mut s = crate::text::text(
        "\"GENERATED from treaty.json by `cargo run --bin gen_treaty_st` — DO NOT EDIT.\nThe Treaty (SPEC Appendix A): the binary contract between the VM and the\ncompiler. One class-side method per constant.\"\n\nObject subclass: #Treaty\n\tinstanceVariableNames: ''\n\tclassVariableNames: ''\n\tpoolDictionaries: ''\n\tcategory: 'Smallishtalk-Compiler'!\n\n!Treaty class methodsFor: 'constants'!\n",
    );
    let ghost t = constant_views(v@);
    assert(treaty_head() + constant_methods(t, 0) =~= treaty_head());
    let mut i: usize = 0;
    while i < v.len()
        invariant
            i <= v@.len(),
            t == constant_views(v@),
            s@ == treaty_head() + constant_methods(t, i as int),
        decreases v@.len() - i,
    {
        let (group, name, value) = v[i];
        append_method(&mut s, group, name, value);
        assert(t[i as int] == Constant { group: group@, name: name@, value });
        i = i + 1;
        assert(s@ =~= treaty_head() + constant_methods(t, i as int));
    }
    s.append(" !\n");
    s
}

} // verus!
