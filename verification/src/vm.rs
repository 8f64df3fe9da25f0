//! The machine: heap, exact root set, and the object model.
//!
//! All references are tagged values. Objects held only in local variables
//! are invisible to the collector, so multi-step allocations root their
//! intermediate values in `temp_roots`.

use crate::counters::{Counters, CountersView};
use crate::heap::{Header, Heap, HeapConfig, HeapView, MAX_CLASS_INDEX};
use crate::host_ui::{HostUi, HostView};
use crate::inheritance::{
    all_have_dictionaries, law_search_finds_nearest, lineage, nearest_method,
};
use crate::jit::{JitState, JitView};
use crate::profile::{Profiler, ProfilerView, SafepointShared};
use crate::requests::{Ask, HostRequest};
use crate::text::text;
use crate::value::Value;
use crate::treaty::{
    BEHAVIOR_CLASS_INDEX, BEHAVIOR_FORMAT_AND_SLOTS, BEHAVIOR_METHOD_DICTIONARY,
    BEHAVIOR_SUPERCLASS, CLASS_ARRAY, CLASS_BYTESTRING, CLASS_FLOAT, CLASS_OBJECT,
    CLASS_SMALLINTEGER, DEFAULT_MAX_STACK_BYTES, FMT_BYTES_BASE, FMT_FIXED, FMT_PTRS,
    FORMAT_AND_SLOTS_FORMAT_SHIFT, FORMAT_AND_SLOTS_NSLOTS_MASK, LARGE_OBJECT_BYTES,
    LOOKUP_CACHE_SIZE, MAX_FRAME_SLOTS, MDICT_KEYS, MDICT_NUM_VM_SLOTS, MDICT_VALUES,
    METHOD_CLASS, METHOD_HEADER, METHOD_SELECTOR, METHOD_SEND_SITES, MH_ARGC_SHIFT,
    MH_FLAGS_SHIFT, MH_FRAME_SLOTS_SHIFT, MH_HANDLER_SLOT_BASE_SHIFT, MH_HAS_PRIMITIVE_SHIFT,
    MH_PRIMITIVE_SHIFT, PRIM_TABLE_SIZE, SITE_CACHE_CLASS, SITE_CACHE_METHOD, SITE_STRIDE,
    SPECIAL_FALSE, SPECIAL_NIL, SPECIAL_OBJECTS_COUNT, SPECIAL_TRUE, YOUNG_SPACE_BYTES_DEFAULT,
};
use vstd::prelude::*;
use vstd::string::*;

verus! {

/// Why the machine stopped.
#[derive(Debug)]
pub enum VmError {
    OutOfMemory,
    StackOverflow,
    Fatal(String),
    /// A primitive waits for the host; see [`crate::interp`].
    NeedsHost,
}

/// Why an operation fails, with the machine that it leaves behind where the
/// machine can go on.
pub enum Fault {
    /// There is no room, not even after what a collection freed.
    OutOfMemory(VmView),
    /// A stack would outgrow its limit.
    StackOverflow(VmView),
    /// The host has to act first.
    NeedsHost(VmView),
    /// What the message says is wrong.
    Fatal(Seq<char>, VmView),
    /// An image is too large for the heap; there is no machine yet.
    TooLarge,
    /// A collection met objects that do not fit together, and stopped midway;
    /// or an image holds no machine.
    Broken(Seq<char>),
}

impl Fault {
    /// The machine that the fault leaves behind.
    pub open spec fn left(self) -> Option<VmView> {
        match self {
            Fault::OutOfMemory(v) => Some(v),
            Fault::StackOverflow(v) => Some(v),
            Fault::NeedsHost(v) => Some(v),
            Fault::Fatal(_, v) => Some(v),
            Fault::TooLarge => None,
            Fault::Broken(_) => None,
        }
    }

    /// The fault, where something is still done to the machine that it
    /// leaves behind.
    pub open spec fn followed(self, g: spec_fn(VmView) -> VmView) -> Fault {
        match self {
            Fault::OutOfMemory(v) => Fault::OutOfMemory(g(v)),
            Fault::StackOverflow(v) => Fault::StackOverflow(g(v)),
            Fault::NeedsHost(v) => Fault::NeedsHost(g(v)),
            Fault::Fatal(m, v) => Fault::Fatal(m, g(v)),
            Fault::TooLarge => self,
            Fault::Broken(_) => self,
        }
    }

    /// The fault, with the machine that it leaves behind without the roots
    /// from a run's on.
    pub open spec fn unrooted(self, target: int) -> Fault {
        self.followed(|v: VmView| v.unrooted(target))
    }
}

impl VmError {
    /// Whether this error is the one for a fault.
    pub open spec fn names(self, f: Fault) -> bool {
        match f {
            Fault::OutOfMemory(_) => self is OutOfMemory,
            Fault::StackOverflow(_) => self is StackOverflow,
            Fault::NeedsHost(_) => self is NeedsHost,
            Fault::TooLarge => self is OutOfMemory,
            Fault::Fatal(m, _) => self matches VmError::Fatal(s) && s@ == m,
            Fault::Broken(m) => self matches VmError::Fatal(s) && s@ == m,
        }
    }

    /// Whether this error is the one for a fault, and the machine after it
    /// the one that the fault leaves behind.
    pub open spec fn tells(self, f: Fault, after: VmView) -> bool {
        self.names(f) && match f.left() {
            Some(v) => after == v,
            None => true,
        }
    }
}

/// A fatal error with the given message.
pub fn fatal<T>(msg: &str) -> (r: Result<T, VmError>)
    ensures
        r is Err,
        r->Err_0 matches VmError::Fatal(s) && s@ == msg@,
{
    Err(VmError::Fatal(text(msg)))
}

/// Global lookup cache entry: (class index, selector) to method.
#[derive(Clone, Copy, PartialEq, Eq, Structural, Debug)]
pub struct LookupEntry {
    pub class_index: u32,
    pub selector: Value,
    pub method: Value,
}

impl Default for LookupEntry {
    fn default() -> (e: LookupEntry)
        ensures
            e == no_entry(),
    {
        LookupEntry { class_index: 0, selector: Value(0), method: Value(0) }
    }
}

/// The empty cache entry.
pub open spec fn no_entry() -> LookupEntry {
    LookupEntry { class_index: 0, selector: Value(0), method: Value(0) }
}

/// The empty lookup cache.
pub open spec fn no_entries() -> Seq<LookupEntry> {
    Seq::new(LOOKUP_CACHE_SIZE as nat, |i: int| no_entry())
}

#[derive(Clone, Copy)]
pub struct VmConfig {
    pub heap: HeapConfig,
    pub max_stack_bytes: usize,
}

impl Default for VmConfig {
    fn default() -> (c: VmConfig)
        ensures
            c.heap.young_bytes == YOUNG_SPACE_BYTES_DEFAULT,
            c.heap.old_bytes == 67108864,
            c.heap.large_object_bytes == LARGE_OBJECT_BYTES,
            c.max_stack_bytes == DEFAULT_MAX_STACK_BYTES,
    {
        VmConfig { heap: HeapConfig::default(), max_stack_bytes: DEFAULT_MAX_STACK_BYTES }
    }
}

pub struct Vm {
    pub heap: Heap,
    /// Class index to class object. Entry 0 is invalid.
    pub class_table: Vec<Value>,
    pub specials: Vec<Value>,
    /// Interned symbols: their characters and the symbol objects, in step.
    pub symbol_names: Vec<Vec<u8>>,
    pub symbols: Vec<Value>,
    /// Handle scope for in-flight temporaries.
    pub temp_roots: Vec<Value>,
    pub active_process: Value,
    /// Send-site arrays whose inline caches are cleared eagerly.
    pub site_registry: Vec<Value>,
    pub lookup_cache: Vec<LookupEntry>,
    pub hash_counter: u32,
    pub safepoint: SafepointShared,
    /// Incremented by every collection.
    pub gc_epoch: u64,
    pub max_stack_bytes: usize,
    /// Everything written to standard output.
    pub stdout_capture: Vec<u8>,
    pub scavenge_count: u64,
    pub compact_count: u64,
    pub stack_grow_count: u64,
    pub tenure_threshold: u64,
    /// Which file descriptors are open; the host holds the files.
    pub files: Vec<bool>,
    /// The host's clock when it last handed control over, in nanoseconds
    /// since its start.
    pub now_ns: u64,
    /// Timer requests: deadline on the monotonic clock, and semaphore.
    pub timer_times: Vec<i64>,
    pub timer_sems: Vec<Value>,
    /// After this many sends, save an image to the path.
    pub snapshot_after_sends: Option<(u64, String)>,
    pub sends_seen: u64,
    pub snapshot_fired_at_capture_len: Option<usize>,
    pub counters: Counters,
    pub profiler: Profiler,
    pub jit: Option<JitState>,
    /// Display state. Not part of a snapshot.
    pub host: HostUi,
    /// What the host is asked for.
    pub request: Option<HostRequest>,
}

/// The state of a machine.
#[verifier::ext_equal]
pub struct VmView {
    pub heap: HeapView,
    pub class_table: Seq<Value>,
    pub specials: Seq<Value>,
    pub symbol_names: Seq<Seq<u8>>,
    pub symbols: Seq<Value>,
    pub temp_roots: Seq<Value>,
    pub active: Value,
    pub sites: Seq<Value>,
    pub cache: Seq<LookupEntry>,
    pub hash_counter: u32,
    pub safepoint: SafepointShared,
    pub epoch: u64,
    pub max_stack_bytes: usize,
    pub capture: Seq<u8>,
    pub scavenges: u64,
    pub compacts: u64,
    pub stack_grows: u64,
    pub tenure: u64,
    pub files: Seq<bool>,
    pub now_ns: u64,
    pub timer_times: Seq<i64>,
    pub timer_sems: Seq<Value>,
    pub snap: Option<(u64, Seq<char>)>,
    pub sends_seen: u64,
    pub snap_len: Option<int>,
    pub ctr: CountersView,
    pub prof: ProfilerView,
    pub jit: Option<JitView>,
    pub host: HostView,
    pub request: Option<Ask>,
}

/// The contents of a list of byte vectors.
pub open spec fn byte_lists(s: Seq<Vec<u8>>) -> Seq<Seq<u8>> {
    Seq::new(s.len(), |i: int| s[i]@)
}

impl View for Vm {
    type V = VmView;

    open spec fn view(&self) -> VmView {
        VmView {
            heap: self.heap@,
            class_table: self.class_table@,
            specials: self.specials@,
            symbol_names: byte_lists(self.symbol_names@),
            symbols: self.symbols@,
            temp_roots: self.temp_roots@,
            active: self.active_process,
            sites: self.site_registry@,
            cache: self.lookup_cache@,
            hash_counter: self.hash_counter,
            safepoint: self.safepoint,
            epoch: self.gc_epoch,
            max_stack_bytes: self.max_stack_bytes,
            capture: self.stdout_capture@,
            scavenges: self.scavenge_count,
            compacts: self.compact_count,
            stack_grows: self.stack_grow_count,
            tenure: self.tenure_threshold,
            files: self.files@,
            now_ns: self.now_ns,
            timer_times: self.timer_times@,
            timer_sems: self.timer_sems@,
            snap: match self.snapshot_after_sends {
                None => None,
                Some((n, p)) => Some((n, p@)),
            },
            sends_seen: self.sends_seen,
            snap_len: match self.snapshot_fired_at_capture_len {
                None => None,
                Some(n) => Some(n as int),
            },
            ctr: self.counters@,
            prof: self.profiler@,
            jit: match self.jit {
                None => None,
                Some(j) => Some(j@),
            },
            host: self.host@,
            request: match self.request {
                None => None,
                Some(r) => Some(r@),
            },
        }
    }
}

impl VmView {
    /// What every operation of the machine keeps.
    pub open spec fn wf(self) -> bool {
        &&& self.consistent()
        &&& self.specials.len() >= SPECIAL_OBJECTS_COUNT
    }

    /// What every machine keeps, also one whose image has too few special
    /// objects to run.
    pub open spec fn consistent(self) -> bool {
        &&& self.heap.wf()
        &&& self.symbol_names.len() == self.symbols.len()
        &&& self.cache.len() == LOOKUP_CACHE_SIZE
        &&& self.timer_times.len() == self.timer_sems.len()
        &&& self.ctr.wf()
        &&& self.prof.wf()
        &&& self.jit is Some ==> self.jit->0.wf()
    }

    pub open spec fn nil(self) -> Value {
        self.specials[SPECIAL_NIL as int]
    }

    pub open spec fn true_v(self) -> Value {
        self.specials[SPECIAL_TRUE as int]
    }

    pub open spec fn false_v(self) -> Value {
        self.specials[SPECIAL_FALSE as int]
    }

    pub open spec fn bool_v(self, b: bool) -> Value {
        if b {
            self.true_v()
        } else {
            self.false_v()
        }
    }
}

impl Vm {
    pub open spec fn wf(&self) -> bool {
        self@.wf()
    }

    /// The machine has all special objects, and can run.
    pub fn complete(&self) -> (b: bool)
        requires
            self@.consistent(),
        ensures
            b == self.wf(),
    {
        self.specials.len() >= SPECIAL_OBJECTS_COUNT
    }

    // --- Well-known values ---
    pub fn nil(&self) -> (v: Value)
        requires
            self.wf(),
        ensures
            v == self@.nil(),
    {
        self.specials[SPECIAL_NIL]
    }

    pub fn true_v(&self) -> (v: Value)
        requires
            self.wf(),
        ensures
            v == self@.true_v(),
    {
        self.specials[SPECIAL_TRUE]
    }

    pub fn false_v(&self) -> (v: Value)
        requires
            self.wf(),
        ensures
            v == self@.false_v(),
    {
        self.specials[SPECIAL_FALSE]
    }

    pub fn bool_v(&self, b: bool) -> (v: Value)
        requires
            self.wf(),
        ensures
            v == self@.bool_v(b),
    {
        if b {
            self.true_v()
        } else {
            self.false_v()
        }
    }

    pub fn specials(&self) -> (s: &[Value])
        ensures
            s@ == self@.specials,
    {
        self.specials.as_slice()
    }

    pub fn set_special(&mut self, idx: usize, v: Value)
        requires
            old(self).wf(),
            idx < SPECIAL_OBJECTS_COUNT,
        ensures
            final(self).wf(),
            final(self)@ == (VmView {
                specials: old(self)@.specials.update(idx as int, v),
                ..old(self)@
            }),
    {
        self.specials.set(idx, v);
    }

    pub fn class_table_at(&self, idx: u32) -> (v: Value)
        requires
            idx < self@.class_table.len(),
        ensures
            v == self@.class_table[idx as int],
    {
        self.class_table[idx as usize]
    }
}

// ---------------------------------------------------------------------------
// Slots, classes and lookup
// ---------------------------------------------------------------------------
impl HeapView {
    /// Number of words of the heap; no chain of distinct objects is longer.
    pub open spec fn words(self) -> nat {
        self.from.mem.len() + self.to.mem.len() + self.old.mem.len()
    }

    /// The first of slots `i..n` of the object at `o` that holds `v`, else `n`.
    pub open spec fn slot_index(self, o: int, v: Value, i: int, n: int) -> int
        decreases n - i,
    {
        if i >= n {
            n
        } else if self.slot(o, i) == v {
            i
        } else {
            self.slot_index(o, v, i + 1, n)
        }
    }

    /// The method that a method dictionary has for a selector.
    pub open spec fn mdict_find(self, mdict: Value, selector: Value) -> Option<Value> {
        let keys = self.slot(mdict.addr(), MDICT_KEYS as int).addr();
        let vals = self.slot(mdict.addr(), MDICT_VALUES as int).addr();
        if !self.shaped(mdict.addr(), MDICT_NUM_VM_SLOTS as int) || !self.whole(keys) {
            None
        } else {
            let n = self.nslots(keys) as int;
            let i = self.slot_index(keys, selector, 0, n);
            if i < n && self.shaped(vals, i + 1) {
                Some(self.slot(vals, i))
            } else {
                None
            }
        }
    }
}

impl VmView {
    pub open spec fn on_heap(self, heap: HeapView) -> VmView {
        VmView { heap, ..self }
    }

    /// The class index of a value: SmallInteger's, or the one in the header.
    pub open spec fn class_index(self, v: Value) -> u32 {
        if v.tagged_int() {
            CLASS_SMALLINTEGER
        } else {
            self.heap.hdr(v.addr()).class_field() as u32
        }
    }

    /// The method for a selector along a superclass chain of at most `fuel`
    /// classes, and how many classes were visited.
    pub open spec fn lookup_chain(self, cls: Value, selector: Value, fuel: nat) -> (
        Option<Value>,
        int,
    )
        decreases fuel,
    {
        if fuel == 0 || cls == self.nil() || !self.heap.shaped(
            cls.addr(),
            BEHAVIOR_METHOD_DICTIONARY + 1,
        ) {
            (None, 0)
        } else {
            let mdict = self.heap.slot(cls.addr(), BEHAVIOR_METHOD_DICTIONARY as int);
            let found = if mdict != self.nil() {
                self.heap.mdict_find(mdict, selector)
            } else {
                None
            };
            match found {
                Some(m) => (Some(m), 1),
                None => {
                    let (m, n) = self.lookup_chain(
                        self.heap.slot(cls.addr(), BEHAVIOR_SUPERCLASS as int),
                        selector,
                        (fuel - 1) as nat,
                    );
                    (m, n + 1)
                },
            }
        }
    }

    /// The method for a selector in the class with an index, and how many
    /// classes were visited.
    pub open spec fn lookup(self, class_index: u32, selector: Value) -> (Option<Value>, int) {
        if class_index < self.class_table.len() {
            self.lookup_chain(self.class_table[class_index as int], selector, self.heap.words())
        } else {
            (None, 0)
        }
    }

    /// The method for a selector above a class.
    pub open spec fn lookup_above(self, static_class: Value, selector: Value) -> Option<Value> {
        let sup = self.heap.slot(static_class.addr(), BEHAVIOR_SUPERCLASS as int);
        if !self.heap.shaped(static_class.addr(), BEHAVIOR_SUPERCLASS + 1) || sup == self.nil()
            || !self.heap.shaped(sup.addr(), BEHAVIOR_CLASS_INDEX + 1) {
            None
        } else {
            let idx = self.heap.slot(sup.addr(), BEHAVIOR_CLASS_INDEX as int).int_value() as u32;
            self.lookup(idx, selector).0
        }
    }
}

impl Vm {
    /// The write barrier for a store of `v` into the object at `obj`.
    pub fn write_barrier(&mut self, obj: usize, v: Value)
        requires
            old(self).wf(),
            old(self)@.heap.plausible(obj as int),
        ensures
            final(self).wf(),
            final(self)@ == old(self)@.on_heap(old(self)@.heap.barrier(obj as int, v)),
    {
        self.heap.barrier(Value(obj as u64), v);
    }

    /// Slot store with the write barrier: every pointer store but those into
    /// the running process's own stack goes through here.
    pub fn store_slot(&mut self, obj: usize, i: usize, v: Value)
        requires
            old(self).wf(),
            old(self)@.heap.shaped(obj as int, i + 1),
        ensures
            final(self).wf(),
            final(self)@ == old(self)@.on_heap(old(self)@.heap.store(obj as int, i as int, v)),
    {
        self.heap.store(Value(obj as u64), i, v);
    }

    pub fn class_index_of(&self, v: Value) -> (c: u32)
        requires
            self.wf(),
            v.tagged_int() || self@.heap.plausible(v.addr()),
        ensures
            c == self@.class_index(v),
            c <= MAX_CLASS_INDEX,
    {
        if v.is_int() {
            CLASS_SMALLINTEGER
        } else {
            self.heap.header_of(v).class_index()
        }
    }

    pub fn class_of(&self, v: Value) -> (c: Value)
        requires
            self.wf(),
            v.tagged_int() || self@.heap.plausible(v.addr()),
            self@.class_index(v) < self@.class_table.len(),
        ensures
            c == self@.class_table[self@.class_index(v) as int],
    {
        self.class_table[self.class_index_of(v) as usize]
    }

    /// Format and named-slot count of a class's instances.
    pub fn class_format_and_slots(&self, class: Value) -> (r: (u64, usize))
        requires
            self.wf(),
            self@.heap.shaped(class.addr(), BEHAVIOR_FORMAT_AND_SLOTS + 1),
        ensures
            r == instance_shape(
                self@.heap.slot(class.addr(), BEHAVIOR_FORMAT_AND_SLOTS as int).int_value(),
            ),
            r.1 <= 0xffff,
    {
        let fas: i64 = self.heap.peek(class, BEHAVIOR_FORMAT_AND_SLOTS).as_int();
        let n: u64 = fas as u64 & FORMAT_AND_SLOTS_NSLOTS_MASK;
        assert(n <= 0xffff) by (bit_vector)
            requires
                n == fas as u64 & 0xffff,
        ;
        ((fas >> FORMAT_AND_SLOTS_FORMAT_SHIFT) as u64, n as usize)
    }

    pub fn mdict_lookup(&self, mdict: Value, selector: Value) -> (r: Option<Value>)
        requires
            self.wf(),
        ensures
            r == self@.heap.mdict_find(mdict, selector),
    {
        if !self.heap.shaped(mdict, MDICT_NUM_VM_SLOTS) {
            return None;
        }
        let keys = self.heap.peek(mdict, MDICT_KEYS);
        let vals = self.heap.peek(mdict, MDICT_VALUES);
        if !self.heap.whole(keys) {
            return None;
        }
        let n: usize = self.heap.count_of(keys) as usize;
        let i: usize = self.heap.slot_index(keys, selector, n);
        if i < n && self.heap.shaped(vals, i + 1) {
            Some(self.heap.peek(vals, i))
        } else {
            None
        }
    }

    pub(crate) fn heap_words(&self) -> (n: u64)
        requires
            self.wf(),
        ensures
            n == self@.heap.words(),
    {
        self.heap.young_from.words() as u64 + self.heap.young_to.words() as u64
            + self.heap.old.words() as u64
    }

    /// Slow-path lookup: walk method dictionaries up the superclass chain.
    pub fn lookup_method(&self, class_index: u32, selector: Value) -> (r: Option<Value>)
        requires
            self.wf(),
        ensures
            r == self@.lookup(class_index, selector).0,
            forall|chain: Seq<Value>|
                class_index < self@.class_table.len() && #[trigger] lineage(
                    self@,
                    self@.class_table[class_index as int],
                    chain,
                ) && all_have_dictionaries(self@, chain) ==> nearest_method(
                    self@,
                    chain,
                    selector,
                    r,
                ),
    {
        self.lookup_method_counted(class_index, selector).0
    }

    /// Lookup that also reports how many classes the walk visited.
    #[verifier::loop_isolation(false)]
    #[verifier::rlimit(60)]
    pub fn lookup_method_counted(&self, class_index: u32, selector: Value) -> (r: (
        Option<Value>,
        u64,
    ))
        requires
            self.wf(),
        ensures
            r.0 == self@.lookup(class_index, selector).0,
            r.1 == self@.lookup(class_index, selector).1,
            forall|chain: Seq<Value>|
                class_index < self@.class_table.len() && #[trigger] lineage(
                    self@,
                    self@.class_table[class_index as int],
                    chain,
                ) && all_have_dictionaries(self@, chain) ==> nearest_method(
                    self@,
                    chain,
                    selector,
                    r.0,
                ),
    {
        proof {
            assert forall|chain: Seq<Value>|
                class_index < self@.class_table.len() && #[trigger] lineage(
                    self@,
                    self@.class_table[class_index as int],
                    chain,
                ) && all_have_dictionaries(self@, chain) implies nearest_method(
                self@,
                chain,
                selector,
                self@.lookup(class_index, selector).0,
            ) by {
                law_search_finds_nearest(self@, class_index, selector, chain);
            }
        }
        if class_index as usize >= self.class_table.len() {
            return (None, 0);
        }
        let nil = self.nil();
        let mut cls = self.class_table[class_index as usize];
        let mut walked: u64 = 0;
        let mut fuel: u64 = self.heap_words();
        let ghost words = fuel;
        let ghost whole = self@.lookup(class_index, selector);
        while fuel > 0 && cls != nil && self.heap.shaped(cls, BEHAVIOR_METHOD_DICTIONARY + 1)
            invariant
                walked + fuel == words,
                whole == ({
                    let (m, n) = self@.lookup_chain(cls, selector, fuel as nat);
                    (m, n + walked)
                }),
            decreases fuel,
        {
            walked = walked + 1;
            fuel = fuel - 1;
            let mdict = self.heap.peek(cls, BEHAVIOR_METHOD_DICTIONARY);
            if mdict != nil {
                if let Some(m) = self.mdict_lookup(mdict, selector) {
                    return (Some(m), walked);
                }
            }
            cls = self.heap.peek(cls, BEHAVIOR_SUPERCLASS);
        }
        (None, walked)
    }

    /// Lookup starting above the given (static) class.
    pub fn lookup_method_above(&self, static_class: Value, selector: Value) -> (r: Option<Value>)
        requires
            self.wf(),
        ensures
            r == self@.lookup_above(static_class, selector),
    {
        if !self.heap.shaped(static_class, BEHAVIOR_SUPERCLASS + 1) {
            return None;
        }
        let sup = self.heap.peek(static_class, BEHAVIOR_SUPERCLASS);
        if sup == self.nil() || !self.heap.shaped(sup, BEHAVIOR_CLASS_INDEX + 1) {
            return None;
        }
        let idx: u32 = self.heap.peek(sup, BEHAVIOR_CLASS_INDEX).as_int() as u32;
        self.lookup_method(idx, selector)
    }
}

/// Format and named-slot count from a class's format-and-slots integer.
pub open spec fn instance_shape(fas: i64) -> (u64, usize) {
    ((fas >> 16u32) as u64, (fas as u64 & 0xffff) as usize)
}

// ---------------------------------------------------------------------------
// Installation and eager invalidation
// ---------------------------------------------------------------------------
impl HeapView {
    /// The inline caches of sites `s..n` of the send-site array at `o`
    /// cleared.
    pub open spec fn clear_sites(self, o: int, s: int, n: int, nil: Value) -> HeapView
        decreases n - s,
    {
        if s >= n {
            self
        } else {
            self.set_slot(o, s * SITE_STRIDE + SITE_CACHE_CLASS, crate::value::tag(0)).set_slot(
                o,
                s * SITE_STRIDE + SITE_CACHE_METHOD,
                nil,
            ).clear_sites(o, s + 1, n, nil)
        }
    }

    /// The inline caches of the send-site arrays `list[i..]` cleared.
    pub open spec fn clear_all_sites(self, list: Seq<Value>, i: int, nil: Value) -> HeapView
        decreases list.len() - i,
    {
        if i < 0 || i >= list.len() {
            self
        } else {
            let o = list[i].addr();
            let h = if self.whole(o) {
                self.clear_sites(o, 0, self.nslots(o) as int / 5, nil)
            } else {
                self
            };
            h.clear_all_sites(list, i + 1, nil)
        }
    }

    /// Entries `i..n` of two parallel arrays copied to two others.
    pub open spec fn copy_entries(
        self,
        keys: int,
        vals: int,
        new_keys: int,
        new_vals: int,
        i: int,
        n: int,
    ) -> HeapView
        decreases n - i,
    {
        if i >= n {
            self
        } else {
            let k = self.slot(keys, i);
            let v = self.slot(vals, i);
            self.store(new_keys, i, k).store(new_vals, i, v).copy_entries(
                keys,
                vals,
                new_keys,
                new_vals,
                i + 1,
                n,
            )
        }
    }

    /// The class's method dictionary can be read and the method stamped.
    pub open spec fn installable(self, class: Value, method: Value) -> bool {
        let mdict = self.slot(class.addr(), BEHAVIOR_METHOD_DICTIONARY as int).addr();
        let keys = self.slot(mdict, MDICT_KEYS as int).addr();
        let vals = self.slot(mdict, MDICT_VALUES as int).addr();
        &&& self.shaped(class.addr(), BEHAVIOR_METHOD_DICTIONARY + 1)
        &&& self.shaped(method.addr(), METHOD_CLASS + 1)
        &&& self.shaped(mdict, MDICT_NUM_VM_SLOTS as int)
        &&& self.whole(keys)
        &&& self.shaped(vals, self.nslots(keys) as int)
    }

    /// The heap where there was no room for a longer dictionary: the new
    /// keys may have found room, and are not used.
    pub open spec fn half_entered(self, class: Value, nil: Value) -> HeapView {
        let mdict = self.slot(class.addr(), BEHAVIOR_METHOD_DICTIONARY as int).addr();
        let keys = self.slot(mdict, MDICT_KEYS as int).addr();
        let n = self.nslots(keys) as int;
        match self.alloc_old(CLASS_ARRAY, FMT_PTRS, n + 1, Some(nil.0), false) {
            None => self,
            Some((h1, _)) => h1,
        }
    }

    /// The heap with the dictionary entry added or replaced.
    pub open spec fn entered(self, class: Value, selector: Value, method: Value, nil: Value) -> Option<
        HeapView,
    > {
        let mdict = self.slot(class.addr(), BEHAVIOR_METHOD_DICTIONARY as int).addr();
        let keys = self.slot(mdict, MDICT_KEYS as int).addr();
        let vals = self.slot(mdict, MDICT_VALUES as int).addr();
        let n = self.nslots(keys) as int;
        let i = self.slot_index(keys, selector, 0, n);
        if i < n {
            Some(self.store(vals, i, method))
        } else {
            match self.alloc_old(CLASS_ARRAY, FMT_PTRS, n + 1, Some(nil.0), false) {
                None => None,
                Some((h1, new_keys)) => match h1.alloc_old(
                    CLASS_ARRAY,
                    FMT_PTRS,
                    n + 1,
                    Some(nil.0),
                    false,
                ) {
                    None => None,
                    Some((h2, new_vals)) => Some(
                        h2.copy_entries(keys, vals, new_keys, new_vals, 0, n).store(
                            new_keys,
                            n,
                            selector,
                        ).store(new_vals, n, method).store(
                            mdict,
                            MDICT_KEYS as int,
                            Value(new_keys as u64),
                        ).store(mdict, MDICT_VALUES as int, Value(new_vals as u64)),
                    ),
                },
            }
        }
    }
}

impl VmView {
    /// The machine with the lookup cache empty and every registered inline
    /// cache cleared, in compiled code too.
    pub open spec fn flushed(self) -> VmView {
        VmView {
            ctr: CountersView {
                cache_flushes: self.ctr.cache_flushes.wrapping_add(1),
                ..self.ctr
            },
            cache: no_entries(),
            heap: self.heap.clear_all_sites(self.sites, 0, self.nil()),
            jit: match self.jit {
                Some(j) => Some(j.sites_cleared(0)),
                None => None,
            },
            ..self
        }
    }

    /// The machine with a method stamped with its selector and class, its
    /// send sites registered, and the caches flushed.
    pub open spec fn stamped(self, method: Value, selector: Value, class: Value) -> VmView {
        let m = method.addr();
        let heap = self.heap.store(m, METHOD_SELECTOR as int, selector).store(
            m,
            METHOD_CLASS as int,
            class,
        );
        let sites = heap.slot(m, METHOD_SEND_SITES as int);
        VmView {
            heap,
            sites: if sites.tagged_ptr() && sites != self.nil() && !self.sites.contains(sites) {
                self.sites.push(sites)
            } else {
                self.sites
            },
            ..self
        }.flushed()
    }

    /// The machine with a method installed in a class under a selector.
    pub open spec fn installed(self, class: Value, selector: Value, method: Value) -> Result<
        VmView,
        Fault,
    > {
        if !self.heap.installable(class, method) {
            Err(
                Fault::Fatal(
                    "install: malformed class or method"@,
                    VmView {
                        ctr: CountersView {
                            method_installs: self.ctr.method_installs.wrapping_add(1),
                            ..self.ctr
                        },
                        ..self
                    },
                ),
            )
        } else {
            match self.heap.entered(class, selector, method, self.nil()) {
                None => Err(
                    Fault::OutOfMemory(
                        VmView {
                            heap: self.heap.half_entered(class, self.nil()),
                            ctr: CountersView {
                                method_installs: self.ctr.method_installs.wrapping_add(1),
                                ..self.ctr
                            },
                            ..self
                        },
                    ),
                ),
                Some(heap) => Ok(
                    VmView {
                        heap,
                        ctr: CountersView {
                            method_installs: self.ctr.method_installs.wrapping_add(1),
                            ..self.ctr
                        },
                        ..self
                    }.stamped(method, selector, class),
                ),
            }
        }
    }
}

/// Whether a list holds a value.
pub(crate) fn holds(list: &Vec<Value>, v: Value) -> (b: bool)
    ensures
        b == list@.contains(v),
{
    let mut i: usize = 0;
    while i < list.len()
        invariant
            i <= list@.len(),
            forall|j: int| 0 <= j < i ==> list@[j] != v,
        decreases list@.len() - i,
    {
        if list[i] == v {
            assert(list@[i as int] == v);
            return true;
        }
        i = i + 1;
    }
    false
}

impl Heap {
    #[verifier::loop_isolation(false)]
    #[verifier::rlimit(60)]
    pub(crate) fn slot_index(&self, o: Value, v: Value, n: usize) -> (i: usize)
        requires
            self.wf(),
            self@.plausible(o.addr()),
            o.addr() + 8 + 8 * n <= self@.limit_of(o.addr()),
        ensures
            i <= n,
            i == self@.slot_index(o.addr(), v, 0, n as int),
    {
        let mut i: usize = 0;
        while i < n
            invariant
                i <= n,
                self@.slot_index(o.addr(), v, 0, n as int) == self@.slot_index(
                    o.addr(),
                    v,
                    i as int,
                    n as int,
                ),
            decreases n - i,
        {
            if self.peek(o, i) == v {
                return i;
            }
            i = i + 1;
        }
        n
    }

    #[verifier::loop_isolation(false)]
    #[verifier::rlimit(60)]
    #[verifier::spinoff_prover]
    fn clear_sites(&mut self, o: Value, n: usize, nil: Value)
        requires
            old(self).wf(),
            old(self)@.plausible(o.addr()),
            o.addr() + 8 + 40 * n <= old(self)@.limit_of(o.addr()),
        ensures
            final(self).wf(),
            final(self)@.layout() == old(self)@.layout(),
            final(self)@ == old(self)@.clear_sites(o.addr(), 0, n as int, nil),
    {
        let mut s: usize = 0;
        let ghost h0 = self@;
        let zero = Value::from_int(0);
        while s < n
            invariant
                s <= n,
                self.wf(),
                self@.layout() == h0.layout(),
                h0.clear_sites(o.addr(), 0, n as int, nil) == self@.clear_sites(
                    o.addr(),
                    s as int,
                    n as int,
                    nil,
                ),
            decreases n - s,
        {
            self.poke(o, s * SITE_STRIDE + SITE_CACHE_CLASS, zero);
            self.poke(o, s * SITE_STRIDE + SITE_CACHE_METHOD, nil);
            s = s + 1;
        }
    }

    #[verifier::loop_isolation(false)]
    fn clear_all_sites(&mut self, list: &Vec<Value>, nil: Value)
        requires
            old(self).wf(),
        ensures
            final(self).wf(),
            final(self)@.layout() == old(self)@.layout(),
            final(self)@ == old(self)@.clear_all_sites(list@, 0, nil),
    {
        let mut i: usize = 0;
        let ghost h0 = self@;
        while i < list.len()
            invariant
                i <= list@.len(),
                self.wf(),
                self@.layout() == h0.layout(),
                h0.clear_all_sites(list@, 0, nil) == self@.clear_all_sites(list@, i as int, nil),
            decreases list@.len() - i,
        {
            let o = list[i];
            if self.whole(o) {
                let n: usize = (self.count_of(o) / 5) as usize;
                self.clear_sites(o, n, nil);
            }
            i = i + 1;
        }
    }

    #[verifier::loop_isolation(false)]
    #[verifier::rlimit(60)]
    fn copy_entries(&mut self, keys: Value, vals: Value, new_keys: Value, new_vals: Value, n: usize)
        requires
            old(self).wf(),
            old(self)@.plausible(keys.addr()),
            keys.addr() + 8 + 8 * n <= old(self)@.limit_of(keys.addr()),
            old(self)@.plausible(vals.addr()),
            vals.addr() + 8 + 8 * n <= old(self)@.limit_of(vals.addr()),
            old(self)@.plausible(new_keys.addr()),
            new_keys.addr() + 8 + 8 * n <= old(self)@.limit_of(new_keys.addr()),
            old(self)@.plausible(new_vals.addr()),
            new_vals.addr() + 8 + 8 * n <= old(self)@.limit_of(new_vals.addr()),
        ensures
            final(self).wf(),
            final(self)@.layout() == old(self)@.layout(),
            final(self)@ == old(self)@.copy_entries(
                keys.addr(),
                vals.addr(),
                new_keys.addr(),
                new_vals.addr(),
                0,
                n as int,
            ),
    {
        let mut i: usize = 0;
        let ghost h0 = self@;
        while i < n
            invariant
                i <= n,
                self.wf(),
                self@.layout() == h0.layout(),
                h0.copy_entries(
                    keys.addr(),
                    vals.addr(),
                    new_keys.addr(),
                    new_vals.addr(),
                    0,
                    n as int,
                ) == self@.copy_entries(
                    keys.addr(),
                    vals.addr(),
                    new_keys.addr(),
                    new_vals.addr(),
                    i as int,
                    n as int,
                ),
            decreases n - i,
        {
            let k = self.peek(keys, i);
            let v = self.peek(vals, i);
            self.store(new_keys, i, k);
            self.store(new_vals, i, v);
            i = i + 1;
        }
    }

    /// Whether a class's method dictionary can be read and a method stamped.
    fn installable(&self, class: Value, method: Value) -> (b: bool)
        requires
            self.wf(),
        ensures
            b == self@.installable(class, method),
    {
        if !self.shaped(class, BEHAVIOR_METHOD_DICTIONARY + 1) || !self.shaped(
            method,
            METHOD_CLASS + 1,
        ) {
            return false;
        }
        let mdict = self.peek(class, BEHAVIOR_METHOD_DICTIONARY);
        if !self.shaped(mdict, MDICT_NUM_VM_SLOTS) {
            return false;
        }
        let keys = self.peek(mdict, MDICT_KEYS);
        let vals = self.peek(mdict, MDICT_VALUES);
        if !self.whole(keys) {
            return false;
        }
        let n: usize = self.count_of(keys) as usize;
        self.shaped(vals, n)
    }

    /// Two arrays of `n` slots in old space.
    fn alloc_pair(&mut self, n: usize, nil: Value) -> (r: Option<(Value, Value)>)
        requires
            old(self).wf(),
        ensures
            final(self).wf(),
            final(self)@.layout() == old(self)@.layout(),
            match old(self)@.alloc_old(CLASS_ARRAY, FMT_PTRS, n as int, Some(nil.0), false) {
                None => r is None && final(self)@ == old(self)@,
                Some((h1, a)) => match h1.alloc_old(
                    CLASS_ARRAY,
                    FMT_PTRS,
                    n as int,
                    Some(nil.0),
                    false,
                ) {
                    None => r is None && final(self)@ == h1,
                    Some((h2, b)) => {
                        &&& r == Some((Value(a as u64), Value(b as u64)))
                        &&& final(self)@ == h2
                        &&& Value(a as u64).addr() == a
                        &&& Value(b as u64).addr() == b
                        &&& h2.plausible(a)
                        &&& h2.plausible(b)
                        &&& a + 8 + 8 * n <= h2.limit_of(a)
                        &&& b + 8 + 8 * n <= h2.limit_of(b)
                    },
                },
            },
    {
        proof {
            if self@.old.fits(crate::heap::words_for(n as int)) {
                crate::objects::law_alloc_old(
                    self@,
                    CLASS_ARRAY,
                    FMT_PTRS,
                    n as int,
                    Some(nil.0),
                    false,
                );
            }
        }
        let a = match self.alloc_ptrs_old(CLASS_ARRAY, n, nil) {
            Some(a) => Value(a as u64),
            None => {
                return None;
            },
        };
        proof {
            if self@.old.fits(crate::heap::words_for(n as int)) {
                crate::objects::law_alloc_old(
                    self@,
                    CLASS_ARRAY,
                    FMT_PTRS,
                    n as int,
                    Some(nil.0),
                    false,
                );
            }
        }
        let b = match self.alloc_ptrs_old(CLASS_ARRAY, n, nil) {
            Some(b) => Value(b as u64),
            None => {
                return None;
            },
        };
        Some((a, b))
    }

    /// Add or replace a dictionary entry; false when old space is full.
    #[verifier::spinoff_prover]
    #[verifier::rlimit(60)]
    fn enter(&mut self, class: Value, selector: Value, method: Value, nil: Value) -> (ok: bool)
        requires
            old(self).wf(),
            old(self)@.installable(class, method),
        ensures
            final(self).wf(),
            final(self)@.layout() == old(self)@.layout(),
            ok == old(self)@.entered(class, selector, method, nil) is Some,
            ok ==> Some(final(self)@) == old(self)@.entered(class, selector, method, nil),
            !ok ==> final(self)@ == old(self)@.half_entered(class, nil),
    {
        let mdict = self.peek(class, BEHAVIOR_METHOD_DICTIONARY);
        let keys = self.peek(mdict, MDICT_KEYS);
        let vals = self.peek(mdict, MDICT_VALUES);
        let n: usize = self.count_of(keys) as usize;
        let i: usize = self.slot_index(keys, selector, n);
        if i < n {
            self.store(vals, i, method);
            return true;
        }
        match self.alloc_pair(n + 1, nil) {
            None => false,
            Some((new_keys, new_vals)) => {
                self.copy_entries(keys, vals, new_keys, new_vals, n);
                self.store(new_keys, n, selector);
                self.store(new_vals, n, method);
                self.store(mdict, MDICT_KEYS, new_keys);
                self.store(mdict, MDICT_VALUES, new_vals);
                true
            },
        }
    }
}

impl Vm {
    /// Eager invalidation: empty the lookup cache and clear every registered
    /// send site's inline cache, in compiled code too.
    pub fn flush_caches(&mut self)
        requires
            old(self).wf(),
        ensures
            final(self).wf(),
            final(self)@ == old(self)@.flushed(),
    {
        self.counters.cache_flushes = self.counters.cache_flushes.wrapping_add(1);
        self.clear_lookup_cache();
        let nil = self.nil();
        self.heap.clear_all_sites(&self.site_registry, nil);
        self.jit_clear_compiled_sites();
    }

    fn stamp_and_flush(&mut self, method: Value, selector: Value, class: Value)
        requires
            old(self).wf(),
            old(self)@.heap.plausible(method.addr()),
            method.addr() + 8 + 8 * (METHOD_CLASS + 1) <= old(self)@.heap.limit_of(method.addr()),
        ensures
            final(self).wf(),
            final(self)@ == old(self)@.stamped(method, selector, class),
    {
        self.heap.store(method, METHOD_SELECTOR, selector);
        self.heap.store(method, METHOD_CLASS, class);
        let nil = self.nil();
        let sites = self.heap.peek(method, METHOD_SEND_SITES);
        if sites.is_ptr() && sites != nil && !holds(&self.site_registry, sites) {
            self.site_registry.push(sites);
        }
        self.flush_caches();
    }

    /// Install a method: replace the dictionary's entry for the selector or
    /// grow its parallel arrays, stamp the method, flush the caches.
    pub fn install_method(&mut self, class: Value, selector: Value, method: Value) -> (r: Result<
        (),
        VmError,
    >)
        requires
            old(self).wf(),
        ensures
            final(self).wf(),
            crate::gc::done(r, final(self)@, old(self)@.installed(class, selector, method)),
            final(self)@.temp_roots == old(self)@.temp_roots,
    {
        let nil = self.nil();
        self.counters.method_installs = self.counters.method_installs.wrapping_add(1);
        if !self.heap.installable(class, method) {
            return fatal("install: malformed class or method");
        }
        if !self.heap.enter(class, selector, method, nil) {
            return Err(VmError::OutOfMemory);
        }
        self.stamp_and_flush(method, selector, class);
        Ok(())
    }
}

// ---------------------------------------------------------------------------
// Class construction
// ---------------------------------------------------------------------------
impl VmView {
    /// The machine with a class entered in the class table.
    pub open spec fn class_registered(self, class: Value) -> VmView {
        let idx = self.class_table.len() as i64;
        VmView {
            class_table: self.class_table.push(class),
            heap: self.heap.set_slot(
                class.addr(),
                BEHAVIOR_CLASS_INDEX as int,
                crate::value::tag(idx),
            ),
            ..self
        }.flushed()
    }

    /// The machine with a new registered class, and the class.
    pub open spec fn subclass_made(self, superclass: Value, format: u64, nslots: usize) -> Option<
        (VmView, Value),
    > {
        match self.heap.class_made(0, format, nslots, self.nil()) {
            None => None,
            Some((h, c)) => Some(
                (
                    self.on_heap(
                        h.set_slot(c.addr(), BEHAVIOR_SUPERCLASS as int, superclass),
                    ).class_registered(c),
                    c,
                ),
            ),
        }
    }
}

impl Vm {
    /// Give a class the next class index, and flush the caches.
    pub fn register_class(&mut self, class: Value) -> (idx: u32)
        requires
            old(self).wf(),
            old(self)@.class_table.len() <= MAX_CLASS_INDEX,
            old(self)@.heap.shaped(class.addr(), BEHAVIOR_CLASS_INDEX + 1),
        ensures
            final(self).wf(),
            idx == old(self)@.class_table.len(),
            final(self)@ == old(self)@.class_registered(class),
    {
        let idx: u32 = self.class_table.len() as u32;
        self.class_table.push(class);
        self.heap.poke(class, BEHAVIOR_CLASS_INDEX, Value::from_int(idx as i64));
        self.flush_caches();
        idx
    }

    /// A new class under Object.
    pub fn new_test_class(&mut self, format: u64, nslots: usize) -> (c: Value)
        requires
            old(self).wf(),
            CLASS_OBJECT < old(self)@.class_table.len() <= MAX_CLASS_INDEX,
            old(self)@.heap.old.fits(10),
            format <= 15,
            nslots <= 0xffff,
        ensures
            final(self).wf(),
            Some((final(self)@, c)) == old(self)@.subclass_made(
                old(self)@.class_table[CLASS_OBJECT as int],
                format,
                nslots,
            ),
    {
        let sup = self.class_table[CLASS_OBJECT as usize];
        self.new_test_subclass(sup, format, nslots)
    }

    /// A new class under a class.
    pub fn new_test_subclass(&mut self, superclass: Value, format: u64, nslots: usize) -> (c: Value)
        requires
            old(self).wf(),
            old(self)@.class_table.len() <= MAX_CLASS_INDEX,
            old(self)@.heap.old.fits(10),
            format <= 15,
            nslots <= 0xffff,
        ensures
            final(self).wf(),
            Some((final(self)@, c)) == old(self)@.subclass_made(superclass, format, nslots),
    {
        let nil = self.nil();
        match self.heap.make_class(0, format, nslots, nil) {
            Some(c) => {
                self.heap.poke(c, BEHAVIOR_SUPERCLASS, superclass);
                let idx: u32 = self.class_table.len() as u32;
                self.class_table.push(c);
                self.heap.poke(c, BEHAVIOR_CLASS_INDEX, Value::from_int(idx as i64));
                self.flush_caches();
                c
            },
            None => Value(0),
        }
    }
}

// ---------------------------------------------------------------------------
// Instantiation
// ---------------------------------------------------------------------------
impl HeapView {
    /// The class describes its instances: it has the machine's slots and an
    /// index that a header can hold.
    pub open spec fn class_ok(self, class: Value) -> bool {
        &&& self.shaped(class.addr(), BEHAVIOR_CLASS_INDEX + 1)
        &&& self.class_number(class) <= MAX_CLASS_INDEX
    }

    pub open spec fn class_number(self, class: Value) -> u32 {
        self.slot(class.addr(), BEHAVIOR_CLASS_INDEX as int).int_value() as u32
    }

    pub open spec fn class_format(self, class: Value) -> u64 {
        instance_shape(self.slot(class.addr(), BEHAVIOR_FORMAT_AND_SLOTS as int).int_value()).0
    }

    pub open spec fn class_slots(self, class: Value) -> usize {
        instance_shape(self.slot(class.addr(), BEHAVIOR_FORMAT_AND_SLOTS as int).int_value()).1
    }

    /// One attempt to allocate an object of the given format: `n` slots, or
    /// `n` bytes for a byte format.
    #[verifier::opaque]
    pub open spec fn attempt(self, class: u32, format: u64, n: int, nil: Value) -> Option<
        (HeapView, Value),
    > {
        let planned = if format == FMT_FIXED || format == FMT_PTRS {
            self.alloc_any(class, format, n, Some(nil.0))
        } else {
            self.alloc_any(
                class,
                crate::heap::byte_format_for(n),
                crate::heap::slots_for(n),
                None,
            )
        };
        match planned {
            None => None,
            Some((h, a)) => Some((h, Value(a as u64))),
        }
    }

    /// Slots `i..` of the object at `o` set to the values of a list.
    pub open spec fn fill_from(self, o: int, list: Seq<Value>, i: int) -> HeapView
        decreases list.len() - i,
    {
        if i < 0 || i >= list.len() {
            self
        } else {
            self.set_slot(o, i, list[i]).fill_from(o, list, i + 1)
        }
    }
}

/// The object and heap that `planned` gives, or out of memory.
pub open spec fn or_full(v: VmView, planned: Option<(HeapView, Value)>) -> Result<
    (VmView, Value),
    Fault,
> {
    match planned {
        None => Err(Fault::OutOfMemory(v)),
        Some((h, x)) => Ok((v.on_heap(h), x)),
    }
}

impl VmView {
    pub open spec fn instance_made(self, class: Value) -> Result<(VmView, Value), Fault> {
        if !self.heap.class_ok(class) {
            Err(Fault::Fatal("make_instance: malformed class"@, self))
        } else if self.heap.class_format(class) != FMT_FIXED {
            Err(
                Fault::Fatal(
                    "make_instance on non-fixed class; use make_instance_sized"@,
                    self,
                ),
            )
        } else {
            or_full(
                self,
                self.heap.attempt(
                    self.heap.class_number(class),
                    FMT_FIXED,
                    self.heap.class_slots(class) as int,
                    self.nil(),
                ),
            )
        }
    }

    pub open spec fn sized_instance_made(self, class: Value, size: int) -> Result<
        (VmView, Value),
        Fault,
    > {
        let format = self.heap.class_format(class);
        if !self.heap.class_ok(class) {
            Err(Fault::Fatal("make_instance: malformed class"@, self))
        } else if format != FMT_PTRS && format < FMT_BYTES_BASE {
            Err(Fault::Fatal("make_instance_sized on fixed-format class"@, self))
        } else {
            or_full(
                self,
                self.heap.attempt(self.heap.class_number(class), format, size, self.nil()),
            )
        }
    }

    pub open spec fn array_made(self, items: Seq<Value>) -> Result<(VmView, Value), Fault> {
        match self.heap.attempt(CLASS_ARRAY, FMT_PTRS, items.len() as int, self.nil()) {
            None => Err(Fault::OutOfMemory(self)),
            Some((h, a)) => Ok((self.on_heap(h.fill_from(a.addr(), items, 0)), a)),
        }
    }

    pub open spec fn bytes_made(self, class: u32, data: Seq<u8>) -> Result<(VmView, Value), Fault> {
        match self.heap.attempt(class, FMT_BYTES_BASE, data.len() as int, self.nil()) {
            None => Err(Fault::OutOfMemory(self)),
            Some((h, a)) => Ok(
                (self.on_heap(h.put_bytes(a.addr(), data, data.len() as int)), a),
            ),
        }
    }

    /// A float object with the given IEEE 754 bits.
    pub open spec fn float_made(self, bits: u64) -> Result<(VmView, Value), Fault> {
        match self.heap.attempt(CLASS_FLOAT, FMT_BYTES_BASE, 8, self.nil()) {
            None => Err(Fault::OutOfMemory(self)),
            Some((h, a)) => Ok((self.on_heap(h.set_slot(a.addr(), 0, Value(bits))), a)),
        }
    }
}

impl Heap {
    /// One attempt to allocate; the object's slots can be written.
    pub(crate) fn attempt(&mut self, class: u32, format: u64, n: usize, nil: Value) -> (r: Option<
        Value,
    >)
        requires
            old(self).wf(),
            class <= MAX_CLASS_INDEX,
        ensures
            final(self).wf(),
            final(self)@.layout() == old(self)@.layout(),
            match old(self)@.attempt(class, format, n as int, nil) {
                None => r is None && final(self)@ == old(self)@,
                Some((h, v)) => {
                    &&& r == Some(v)
                    &&& final(self)@ == h
                    &&& v.tagged_ptr()
                    &&& v.addr() <= usize::MAX
                    &&& h.plausible(v.addr())
                    &&& h.whole(v.addr())
                    &&& format == FMT_FIXED || format == FMT_PTRS ==> h.nslots(v.addr()) == n
                        && v.addr() + 8 + 8 * n <= h.limit_of(v.addr())
                    &&& format != FMT_FIXED && format != FMT_PTRS ==> h.bytes_ok(v.addr())
                        && h.byte_len(v.addr()) == n && v.addr() + 8 + n <= h.limit_of(v.addr())
                },
            },
    {
        reveal(HeapView::attempt);
        let words = format == FMT_FIXED || format == FMT_PTRS;
        let (nslots, fmt) = if words {
            (n, format)
        } else {
            crate::heap::byte_shape(n)
        };
        let fill: Option<u64> = if words {
            Some(nil.0)
        } else {
            None
        };
        proof {
            let k = crate::heap::words_for(nslots as int);
            if self@.old.fits(k) {
                crate::objects::law_alloc_old(self@, class, fmt, nslots as int, fill, true);
            }
            if self@.from.fits(k) {
                crate::objects::law_alloc_young(self@, class, fmt, nslots as int, fill);
            }
        }
        match self.alloc_body(class, fmt, nslots, fill) {
            Some(a) => Some(Value::from_ptr(a)),
            None => None,
        }
    }

    pub(crate) fn fill_from(&mut self, o: Value, list: &[Value])
        requires
            old(self).wf(),
            old(self)@.plausible(o.addr()),
            o.addr() + 8 + 8 * list@.len() <= old(self)@.limit_of(o.addr()),
        ensures
            final(self).wf(),
            final(self)@.layout() == old(self)@.layout(),
            final(self)@ == old(self)@.fill_from(o.addr(), list@, 0),
    {
        let mut i: usize = 0;
        while i < list.len()
            invariant
                i <= list@.len(),
                self.wf(),
                old(self)@.plausible(o.addr()),
                o.addr() + 8 + 8 * list@.len() <= old(self)@.limit_of(o.addr()),
                self@.layout() == old(self)@.layout(),
                old(self)@.fill_from(o.addr(), list@, 0) == self@.fill_from(
                    o.addr(),
                    list@,
                    i as int,
                ),
            decreases list@.len() - i,
        {
            self.poke(o, i, list[i]);
            i = i + 1;
        }
    }
}

impl Vm {
    /// Whether a class describes its instances.
    pub(crate) fn class_ok(&self, class: Value) -> (b: bool)
        requires
            self.wf(),
        ensures
            b == self@.heap.class_ok(class),
    {
        self.heap.shaped(class, BEHAVIOR_CLASS_INDEX + 1) && self.class_number(class)
            <= MAX_CLASS_INDEX
    }

    pub(crate) fn class_number(&self, class: Value) -> (n: u32)
        requires
            self.wf(),
            self@.heap.shaped(class.addr(), BEHAVIOR_CLASS_INDEX + 1),
        ensures
            n == self@.heap.class_number(class),
    {
        self.heap.peek(class, BEHAVIOR_CLASS_INDEX).as_int() as u32
    }

    /// An instance of a fixed-format class.
    pub fn make_instance(&mut self, class: Value) -> (r: Result<Value, VmError>)
        requires
            old(self).wf(),
        ensures
            final(self).wf(),
            crate::gc::outcome(r, final(self)@, old(self)@.instance_made(class)),
    {
        if !self.class_ok(class) {
            return fatal("make_instance: malformed class");
        }
        let (format, nslots) = self.class_format_and_slots(class);
        if format != FMT_FIXED {
            return fatal("make_instance on non-fixed class; use make_instance_sized");
        }
        let idx: u32 = self.class_number(class);
        let nil = self.nil();
        match self.heap.attempt(idx, FMT_FIXED, nslots, nil) {
            Some(v) => Ok(v),
            None => Err(VmError::OutOfMemory),
        }
    }

    /// An instance of a pointer- or byte-format class.
    pub fn make_instance_sized(&mut self, class: Value, size: usize) -> (r: Result<Value, VmError>)
        requires
            old(self).wf(),
        ensures
            final(self).wf(),
            crate::gc::outcome(
                r,
                final(self)@,
                old(self)@.sized_instance_made(class, size as int),
            ),
    {
        if !self.class_ok(class) {
            return fatal("make_instance: malformed class");
        }
        let (format, _) = self.class_format_and_slots(class);
        if format != FMT_PTRS && format < FMT_BYTES_BASE {
            return fatal("make_instance_sized on fixed-format class");
        }
        let idx: u32 = self.class_number(class);
        let nil = self.nil();
        match self.heap.attempt(idx, format, size, nil) {
            Some(v) => Ok(v),
            None => Err(VmError::OutOfMemory),
        }
    }

    /// An Array with the given items.
    pub fn make_array(&mut self, items: &[Value]) -> (r: Result<Value, VmError>)
        requires
            old(self).wf(),
        ensures
            final(self).wf(),
            crate::gc::outcome(r, final(self)@, old(self)@.array_made(items@)),
    {
        let nil = self.nil();
        match self.heap.attempt(CLASS_ARRAY, FMT_PTRS, items.len(), nil) {
            Some(v) => {
                self.heap.fill_from(v, items);
                Ok(v)
            },
            None => Err(VmError::OutOfMemory),
        }
    }

    /// A byte object with the given bytes.
    pub(crate) fn make_bytes(&mut self, class: u32, data: &[u8]) -> (r: Result<Value, VmError>)
        requires
            old(self).wf(),
            class <= MAX_CLASS_INDEX,
        ensures
            final(self).wf(),
            crate::gc::outcome(r, final(self)@, old(self)@.bytes_made(class, data@)),
    {
        let nil = self.nil();
        match self.heap.attempt(class, FMT_BYTES_BASE, data.len(), nil) {
            Some(v) => {
                self.heap.poke_bytes(v, data);
                Ok(v)
            },
            None => Err(VmError::OutOfMemory),
        }
    }

    /// A ByteString with the given text.
    pub fn make_string(&mut self, s: &str) -> (r: Result<Value, VmError>)
        requires
            old(self).wf(),
        ensures
            final(self).wf(),
            crate::gc::outcome(
                r,
                final(self)@,
                old(self)@.bytes_made(CLASS_BYTESTRING, s.spec_bytes()),
            ),
    {
        self.make_bytes(CLASS_BYTESTRING, s.as_bytes())
    }

    /// A Float with the given IEEE 754 bits.
    pub fn make_float(&mut self, bits: u64) -> (r: Result<Value, VmError>)
        requires
            old(self).wf(),
        ensures
            final(self).wf(),
            crate::gc::outcome(r, final(self)@, old(self)@.float_made(bits)),
    {
        let nil = self.nil();
        match self.heap.attempt(CLASS_FLOAT, FMT_BYTES_BASE, 8, nil) {
            Some(v) => {
                self.heap.poke(v, 0, Value(bits));
                Ok(v)
            },
            None => Err(VmError::OutOfMemory),
        }
    }

    /// The IEEE 754 bits of a Float.
    pub fn float_value(&self, v: Value) -> (bits: u64)
        requires
            self.wf(),
            self@.heap.bytes_ok(v.addr()),
            self@.heap.byte_len(v.addr()) == 8,
        ensures
            bits == self@.heap.slot(v.addr(), 0).0,
    {
        self.heap.peek(v, 0).0
    }
}

// ---------------------------------------------------------------------------
// CompiledMethod headers
// ---------------------------------------------------------------------------
/// Bytecode-visible slot count in a method header.
pub open spec fn mh_frame_slots(bits: i64) -> int {
    ((bits >> 0u32) & 0xff) as int
}

pub open spec fn mh_argc(bits: i64) -> int {
    ((bits >> 8u32) & 0xf) as int
}

pub open spec fn mh_primitive(bits: i64) -> Option<u16> {
    if (bits >> 24u32) & 1 != 0 {
        Some(((bits >> 12u32) & 0xfff) as u16)
    } else {
        None
    }
}

pub open spec fn mh_handler_base(bits: i64) -> int {
    ((bits >> 25u32) & 0xff) as int
}

pub open spec fn mh_flags(bits: i64) -> int {
    (bits >> 33u32) as int
}

/// A method header with the given fields.
pub open spec fn mh_packed(frame_slots: i64, argc: i64, prim: i64, has: i64, base: i64, flags: i64) -> i64 {
    frame_slots | (argc << 8u32) | (prim << 12u32) | (has << 24u32) | (base << 25u32) | (flags
        << 33u32)
}

/// The fields of a method header stay in their ranges.
pub proof fn lemma_mh_ranges(bits: i64)
    ensures
        0 <= mh_frame_slots(bits) <= 255,
        0 <= mh_argc(bits) <= 15,
        0 <= mh_handler_base(bits) <= 255,
        mh_primitive(bits) is Some ==> mh_primitive(bits)->0 < 4096,
{
    assert(0 <= (bits >> 0u32) & 0xff <= 255 && 0 <= (bits >> 8u32) & 0xf <= 15 && 0 <= (bits
        >> 25u32) & 0xff <= 255 && 0 <= (bits >> 12u32) & 0xfff < 4096) by (bit_vector);
}

/// Packing a method header and reading its fields gives what was packed.
pub proof fn law_method_header_round_trip(
    frame_slots: i64,
    argc: i64,
    prim: i64,
    has: i64,
    base: i64,
    flags: i64,
)
    requires
        0 <= frame_slots <= 255,
        0 <= argc <= 15,
        0 <= prim < 4096,
        0 <= has <= 1,
        0 <= base <= 255,
        0 <= flags < 0x2000_0000,
    ensures
        ({
            let bits = mh_packed(frame_slots, argc, prim, has, base, flags);
            &&& mh_frame_slots(bits) == frame_slots
            &&& mh_argc(bits) == argc
            &&& mh_primitive(bits) == (if has == 1 {
                Some(prim as u16)
            } else {
                None
            })
            &&& mh_handler_base(bits) == base
            &&& mh_flags(bits) == flags
            &&& crate::value::SMALLINT_MIN <= bits <= crate::value::SMALLINT_MAX
        }),
{
    let bits = mh_packed(frame_slots, argc, prim, has, base, flags);
    assert((bits >> 0u32) & 0xff == frame_slots && (bits >> 8u32) & 0xf == argc && (bits >> 24u32)
        & 1 == has && (bits >> 12u32) & 0xfff == prim && (bits >> 25u32) & 0xff == base && bits
        >> 33u32 == flags && 0 <= bits <= 4611686018427387903i64) by (bit_vector)
        requires
            0 <= frame_slots <= 255,
            0 <= argc <= 15,
            0 <= prim < 4096,
            0 <= has <= 1,
            0 <= base <= 255,
            0 <= flags < 0x2000_0000,
            bits == frame_slots | (argc << 8u32) | (prim << 12u32) | (has << 24u32) | (base
                << 25u32) | (flags << 33u32),
    ;
}

impl HeapView {
    /// The header integer of the method a value denotes.
    pub open spec fn mh(self, method: Value) -> i64 {
        self.slot(method.addr(), METHOD_HEADER as int).int_value()
    }
}

impl Vm {
    pub fn method_header_bits(&self, method: Value) -> (bits: i64)
        requires
            self.wf(),
            self@.heap.shaped(method.addr(), METHOD_HEADER + 1),
        ensures
            bits == self@.heap.mh(method),
    {
        self.heap.peek(method, METHOD_HEADER).as_int()
    }

    /// Bytecode-visible slot count: receiver, arguments, temporaries and
    /// scratch.
    pub fn method_frame_slots(&self, method: Value) -> (n: usize)
        requires
            self.wf(),
            self@.heap.shaped(method.addr(), METHOD_HEADER + 1),
        ensures
            n == mh_frame_slots(self@.heap.mh(method)),
            n <= 255,
    {
        let bits: i64 = self.method_header_bits(method);
        proof {
            lemma_mh_ranges(bits);
        }
        ((bits >> MH_FRAME_SLOTS_SHIFT) & 0xFF) as usize
    }

    pub fn method_argc(&self, method: Value) -> (n: usize)
        requires
            self.wf(),
            self@.heap.shaped(method.addr(), METHOD_HEADER + 1),
        ensures
            n == mh_argc(self@.heap.mh(method)),
            n <= 15,
    {
        let bits: i64 = self.method_header_bits(method);
        proof {
            lemma_mh_ranges(bits);
        }
        ((bits >> MH_ARGC_SHIFT) & 0xF) as usize
    }

    pub fn method_primitive(&self, method: Value) -> (p: Option<u16>)
        requires
            self.wf(),
            self@.heap.shaped(method.addr(), METHOD_HEADER + 1),
        ensures
            p == mh_primitive(self@.heap.mh(method)),
            p is Some ==> p->0 < 4096,
    {
        let bits: i64 = self.method_header_bits(method);
        proof {
            lemma_mh_ranges(bits);
        }
        if (bits >> MH_HAS_PRIMITIVE_SHIFT) & 1 != 0 {
            Some(((bits >> MH_PRIMITIVE_SHIFT) & 0xFFF) as u16)
        } else {
            None
        }
    }

    pub fn method_handler_slot_base(&self, method: Value) -> (n: usize)
        requires
            self.wf(),
            self@.heap.shaped(method.addr(), METHOD_HEADER + 1),
        ensures
            n == mh_handler_base(self@.heap.mh(method)),
            n <= 255,
    {
        let bits: i64 = self.method_header_bits(method);
        proof {
            lemma_mh_ranges(bits);
        }
        ((bits >> MH_HANDLER_SLOT_BASE_SHIFT) & 0xFF) as usize
    }

    /// A method header with the given fields.
    pub fn pack_method_header(
        frame_slots: usize,
        argc: usize,
        primitive: Option<u16>,
        handler_slot_base: usize,
        flags: u64,
    ) -> (bits: i64)
        requires
            frame_slots <= MAX_FRAME_SLOTS,
            argc <= 15,
            handler_slot_base <= 255,
            primitive is Some ==> primitive->0 < PRIM_TABLE_SIZE,
        ensures
            bits == mh_packed(
                frame_slots as i64,
                argc as i64,
                match primitive {
                    Some(n) => n as i64,
                    None => 0,
                },
                if primitive is Some {
                    1
                } else {
                    0
                },
                handler_slot_base as i64,
                flags as i64,
            ),
    {
        let (prim, has): (i64, i64) = match primitive {
            Some(n) => (n as i64, 1),
            None => (0, 0),
        };
        (frame_slots as i64) | ((argc as i64) << MH_ARGC_SHIFT) | (prim << MH_PRIMITIVE_SHIFT) | (
        has << MH_HAS_PRIMITIVE_SHIFT) | ((handler_slot_base as i64) << MH_HANDLER_SLOT_BASE_SHIFT)
            | ((flags as i64) << MH_FLAGS_SHIFT)
    }
}

// ---------------------------------------------------------------------------
// Identity hashes
// ---------------------------------------------------------------------------
/// The hash that follows a hash: the next nonzero 22-bit number.
pub open spec fn next_hash(c: u32) -> u32 {
    let n = c.wrapping_add(1) & 0x3fffff;
    if n != 0 {
        n
    } else {
        1
    }
}

impl VmView {
    /// An identity hash: the integer itself, the hash in the header, or a
    /// new one that the header keeps from then on.
    pub open spec fn hashed(self, v: Value) -> (VmView, i64) {
        if v.tagged_int() {
            (self, v.int_value())
        } else {
            let h = self.heap.hdr(v.addr());
            if h.hash_field() != 0 {
                (self, h.hash_field() as i64)
            } else {
                let n = next_hash(self.hash_counter);
                (
                    VmView {
                        hash_counter: n,
                        heap: self.heap.write(v.addr(), h.hashed(n as u64).0),
                        ..self
                    },
                    n as i64,
                )
            }
        }
    }
}

impl Vm {
    pub fn next_identity_hash(&mut self) -> (n: u32)
        requires
            old(self).wf(),
        ensures
            final(self).wf(),
            n == next_hash(old(self)@.hash_counter),
            1 <= n <= 0x3fffff,
            final(self)@ == (VmView { hash_counter: n, ..old(self)@ }),
    {
        let c: u32 = self.hash_counter.wrapping_add(1);
        let n: u32 = c & 0x3fffff;
        assert(n <= 0x3fffff) by (bit_vector)
            requires
                n == c & 0x3fffff,
        ;
        self.hash_counter = if n != 0 {
            n
        } else {
            1
        };
        self.hash_counter
    }

    pub fn identity_hash_of(&mut self, v: Value) -> (n: i64)
        requires
            old(self).wf(),
            v.tagged_int() || old(self)@.heap.plausible(v.addr()),
        ensures
            final(self).wf(),
            (final(self)@, n) == old(self)@.hashed(v),
            final(self)@.heap.layout() == old(self)@.heap.layout(),
            crate::value::SMALLINT_MIN <= n <= crate::value::SMALLINT_MAX,
    {
        if v.is_int() {
            return v.as_int();
        }
        let h = self.heap.header_of(v);
        if h.hash() == 0 {
            let n: u32 = self.next_identity_hash();
            self.heap.set_word_at(v.0, h.with_hash(n).raw());
            n as i64
        } else {
            h.hash() as i64
        }
    }

    /// The header of the object a value denotes.
    pub fn header_of(&self, v: Value) -> (h: Header)
        requires
            self.wf(),
            self@.heap.plausible(v.addr()),
        ensures
            h == self@.heap.hdr(v.addr()),
    {
        self.heap.header_of(v)
    }
}

} // verus!
