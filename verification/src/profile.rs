//! The sampling profiler: stack samples taken at safepoints, tallied by
//! display name.

use crate::counters::bump_at;
use crate::text::{append_dec, text};
use crate::value::Value;
use crate::vm::{Vm, VmView};
use std::collections::HashMap;
use crate::treaty::{
    BEHAVIOR_CLASS_INDEX, BEHAVIOR_NUM_VM_SLOTS, BLOCK_OUTER_METHOD, CLASS_ARRAY,
    CLASS_ASSOCIATION, CLASS_BEHAVIOR, CLASS_BLOCKCLOSURE, CLASS_BYTEARRAY, CLASS_BYTESTRING,
    CLASS_CHARACTER, CLASS_CLASS, CLASS_COMPILEDBLOCK, CLASS_COMPILEDMETHOD, CLASS_FALSE,
    CLASS_FLOAT, CLASS_MESSAGE, CLASS_METACLASS, CLASS_METHODDICTIONARY, CLASS_OBJECT,
    CLASS_ORDERED_COLLECTION, CLASS_PROCESS, CLASS_PROCESSOR_SCHEDULER, CLASS_SEMAPHORE,
    CLASS_SMALLINTEGER, CLASS_STRING, CLASS_SYMBOL, CLASS_SYSTEM_DICTIONARY, CLASS_TRUE,
    CLASS_UNDEFINED_OBJECT, FRAME_CALLER, FRAME_METHOD, METHOD_CLASS, METHOD_SELECTOR,
    PROCESS_FRAME_OFFSET, PROCESS_STACK,
};
use vstd::prelude::*;
use vstd::string::*;

verus! {

/// Frame-walk depth bound per sample.
pub const MAX_SAMPLE_DEPTH: usize = 64;

/// Requests that the next safepoint poll serves: `armed` says that there is
/// one, `sample_due` that a sample is due. A host timer sets both.
#[derive(Clone, Copy, PartialEq, Eq, Structural, Debug)]
pub struct SafepointShared {
    pub armed: bool,
    pub sample_due: bool,
}

impl SafepointShared {
    pub fn new() -> (s: SafepointShared)
        ensures
            s == (SafepointShared { armed: false, sample_due: false }),
    {
        SafepointShared { armed: false, sample_due: false }
    }
}

/// Sample store. Names are interned; an id is an index into `names`.
pub struct Profiler {
    pub active: bool,
    /// Take a sample at every poll, collection and primitive dispatch.
    pub sample_every_poll: bool,
    pub interval_ms: u64,
    pub total_samples: u64,
    pub names: Vec<String>,
    /// Samples with this id as the leaf, and anywhere on the stack.
    pub flat_self: Vec<u64>,
    pub flat_total: Vec<u64>,
    /// Full paths, root first, and how often each was seen.
    pub paths: Vec<Vec<usize>>,
    pub path_counts: Vec<u64>,
    /// The ids of methods by address, in the collection epoch `cache_epoch`.
    pub addr_cache: HashMap<u64, usize>,
    pub cache_epoch: u64,
}

#[verifier::ext_equal]
pub struct ProfilerView {
    pub active: bool,
    pub every_poll: bool,
    pub interval_ms: u64,
    pub total: u64,
    pub names: Seq<Seq<char>>,
    pub flat_self: Seq<u64>,
    pub flat_total: Seq<u64>,
    pub paths: Seq<Seq<usize>>,
    pub counts: Seq<u64>,
    pub known: Map<u64, usize>,
    pub epoch: u64,
}

/// The texts of a list of strings.
pub open spec fn texts(s: Seq<String>) -> Seq<Seq<char>> {
    Seq::new(s.len(), |i: int| s[i]@)
}

/// The contents of a list of vectors.
pub open spec fn contents(s: Seq<Vec<usize>>) -> Seq<Seq<usize>> {
    Seq::new(s.len(), |i: int| s[i]@)
}

impl View for Profiler {
    type V = ProfilerView;

    open spec fn view(&self) -> ProfilerView {
        ProfilerView {
            active: self.active,
            every_poll: self.sample_every_poll,
            interval_ms: self.interval_ms,
            total: self.total_samples,
            names: texts(self.names@),
            flat_self: self.flat_self@,
            flat_total: self.flat_total@,
            paths: contents(self.paths@),
            counts: self.path_counts@,
            known: self.addr_cache@,
            epoch: self.cache_epoch,
        }
    }
}

impl ProfilerView {
    pub open spec fn wf(self) -> bool {
        &&& self.flat_self.len() == self.names.len()
        &&& self.flat_total.len() == self.names.len()
        &&& self.counts.len() == self.paths.len()
        &&& forall|a: u64| #[trigger]
            self.known.dom().contains(a) ==> self.known[a] < self.names.len()
    }

    /// An idle profiler with an empty store.
    pub open spec fn idle() -> ProfilerView {
        ProfilerView {
            active: false,
            every_poll: false,
            interval_ms: 0,
            total: 0,
            names: Seq::empty(),
            flat_self: Seq::empty(),
            flat_total: Seq::empty(),
            paths: Seq::empty(),
            counts: Seq::empty(),
            known: Map::empty(),
            epoch: 0,
        }
    }
}

impl Default for Profiler {
    fn default() -> (p: Profiler)
        ensures
            p@ == ProfilerView::idle(),
            p@.wf(),
    {
        let p = Profiler {
            active: false,
            sample_every_poll: false,
            interval_ms: 0,
            total_samples: 0,
            names: Vec::new(),
            flat_self: Vec::new(),
            flat_total: Vec::new(),
            paths: Vec::new(),
            path_counts: Vec::new(),
            addr_cache: HashMap::new(),
            cache_epoch: 0,
        };
        assert(p@.names =~= ProfilerView::idle().names);
        assert(p@.paths =~= ProfilerView::idle().paths);
        p
    }
}

/// Where a text first occurs in a list from index `i` on; the list's length
/// where it does not.
pub open spec fn text_index(names: Seq<Seq<char>>, name: Seq<char>, i: int) -> int
    decreases names.len() - i,
{
    if i >= names.len() {
        names.len() as int
    } else if names[i] == name {
        i
    } else {
        text_index(names, name, i + 1)
    }
}

/// Where a path first occurs in a list from index `i` on.
pub open spec fn path_index(paths: Seq<Seq<usize>>, path: Seq<usize>, i: int) -> int
    decreases paths.len() - i,
{
    if i >= paths.len() {
        paths.len() as int
    } else if paths[i] == path {
        i
    } else {
        path_index(paths, path, i + 1)
    }
}

impl ProfilerView {
    /// The id of a name.
    pub open spec fn id_of(self, name: Seq<char>) -> usize {
        text_index(self.names, name, 0) as usize
    }

    /// The store with the name interned.
    pub open spec fn interned(self, name: Seq<char>) -> ProfilerView {
        if text_index(self.names, name, 0) < self.names.len() {
            self
        } else {
            ProfilerView {
                names: self.names.push(name),
                flat_self: self.flat_self.push(0),
                flat_total: self.flat_total.push(0),
                ..self
            }
        }
    }

    /// The store in a collection epoch: what it knew of another is forgotten.
    pub open spec fn in_epoch(self, epoch: u64) -> ProfilerView {
        if self.epoch != epoch {
            ProfilerView { known: Map::empty(), epoch, ..self }
        } else {
            self
        }
    }

    /// The store and the id of a method. A method met before in the epoch has
    /// the id that it had; for any other `name` is its display name.
    pub open spec fn identified(self, epoch: u64, m: Value, name: Seq<char>) -> (
        ProfilerView,
        usize,
    ) {
        let p = self.in_epoch(epoch);
        if m.tagged_ptr() && p.known.dom().contains(m.0) {
            (p, p.known[m.0])
        } else {
            let id = p.id_of(name);
            let p1 = p.interned(name);
            (
                if m.tagged_ptr() {
                    ProfilerView { known: p1.known.insert(m.0, id), ..p1 }
                } else {
                    p1
                },
                id,
            )
        }
    }

    /// The store after one sample of the stack with these ids, leaf first:
    /// the leaf counts as self, every id on the stack counts once in the
    /// totals, and the path is tallied root first.
    pub open spec fn recorded(self, path: Seq<usize>) -> ProfilerView {
        let root_first = path.reverse();
        let at = path_index(self.paths, root_first, 0);
        ProfilerView {
            total: self.total.wrapping_add(1),
            flat_self: if path.len() > 0 {
                crate::counters::bumped(self.flat_self, path[0] as int)
            } else {
                self.flat_self
            },
            flat_total: Seq::new(
                self.flat_total.len(),
                |i: int|
                    if path.contains(i as usize) {
                        self.flat_total[i].wrapping_add(1)
                    } else {
                        self.flat_total[i]
                    },
            ),
            paths: if at < self.paths.len() {
                self.paths
            } else {
                self.paths.push(root_first)
            },
            counts: if at < self.paths.len() {
                crate::counters::bumped(self.counts, at)
            } else {
                self.counts.push(1)
            },
            ..self
        }
    }

    /// The store after one sample of a name alone.
    pub open spec fn sampled(self, name: Seq<char>) -> ProfilerView {
        self.interned(name).recorded(seq![self.id_of(name)])
    }

    /// The store emptied.
    pub open spec fn cleared(self) -> ProfilerView {
        ProfilerView {
            total: 0,
            names: Seq::empty(),
            flat_self: Seq::empty(),
            flat_total: Seq::empty(),
            paths: Seq::empty(),
            counts: Seq::empty(),
            known: Map::empty(),
            ..self
        }
    }
}

fn same_path(a: &Vec<usize>, b: &Vec<usize>) -> (r: bool)
    ensures
        r == (a@ == b@),
{
    if a.len() != b.len() {
        return false;
    }
    let mut i: usize = 0;
    while i < a.len()
        invariant
            i <= a@.len(),
            a@.len() == b@.len(),
            forall|j: int| 0 <= j < i ==> a@[j] == b@[j],
        decreases a@.len() - i,
    {
        if a[i] != b[i] {
            return false;
        }
        i = i + 1;
    }
    assert(a@ =~= b@);
    true
}

impl Profiler {
    /// Forget every sample and every name.
    pub fn reset_store(&mut self)
        ensures
            final(self)@ == old(self)@.cleared(),
            final(self)@.wf(),
    {
        self.total_samples = 0;
        self.names = Vec::new();
        self.flat_self = Vec::new();
        self.flat_total = Vec::new();
        self.paths = Vec::new();
        self.path_counts = Vec::new();
        self.addr_cache = HashMap::new();
        assert(self@.names =~= old(self)@.cleared().names);
        assert(self@.paths =~= old(self)@.cleared().paths);
    }

    pub fn name_of(&self, id: usize) -> (s: &str)
        requires
            id < self@.names.len(),
        ensures
            s@ == self@.names[id as int],
    {
        self.names[id].as_str()
    }

    pub fn names(&self) -> (s: &[String])
        ensures
            texts(s@) == self@.names,
    {
        self.names.as_slice()
    }

    /// The id of a name, given one if it is new.
    #[verifier::loop_isolation(false)]
    #[verifier::rlimit(60)]
    fn intern(&mut self, name: String) -> (id: usize)
        requires
            old(self)@.wf(),
        ensures
            final(self)@.wf(),
            final(self)@ == old(self)@.interned(name@),
            id == old(self)@.id_of(name@),
            id < final(self)@.names.len(),
    {
        let mut i: usize = 0;
        while i < self.names.len()
            invariant
                i <= self.names@.len(),
                *self == *old(self),
                text_index(self@.names, name@, 0) == text_index(self@.names, name@, i as int),
            decreases self.names@.len() - i,
        {
            if self.names[i] == name {
                return i;
            }
            i = i + 1;
        }
        self.names.push(name);
        self.flat_self.push(0);
        self.flat_total.push(0);
        assert(self@.names =~= old(self)@.interned(name@).names);
        assert(self@.paths =~= old(self)@.paths);
        i
    }

    /// Tally one sample of the given stack of ids, leaf first.
    #[verifier::loop_isolation(false)]
    #[verifier::rlimit(60)]
    fn record(&mut self, path: &Vec<usize>)
        requires
            old(self)@.wf(),
            forall|j: int| 0 <= j < path@.len() ==> path@[j] < old(self)@.names.len(),
        ensures
            final(self)@.wf(),
            final(self)@ == old(self)@.recorded(path@),
    {
        let ghost p0 = self@;
        self.total_samples = self.total_samples.wrapping_add(1);
        if path.len() > 0 {
            bump_at(&mut self.flat_self, path[0]);
        }
        let mut j: usize = 0;
        let total: usize = self.flat_total.len();
        while j < path.len()
            invariant
                j <= path@.len(),
                total == p0.flat_total.len(),
                self.names == old(self).names,
                self.paths == old(self).paths,
                self.path_counts == old(self).path_counts,
                self.active == old(self).active,
                self.sample_every_poll == old(self).sample_every_poll,
                self.interval_ms == old(self).interval_ms,
                self.addr_cache == old(self).addr_cache,
                self.cache_epoch == old(self).cache_epoch,
                self.total_samples == p0.total.wrapping_add(1),
                self.flat_self@ == p0.recorded(path@).flat_self,
                self.flat_total@.len() == p0.flat_total.len(),
                forall|i: int|
                    0 <= i < p0.flat_total.len() ==> #[trigger] self.flat_total@[i] == (if path@.subrange(
                        0,
                        j as int,
                    ).contains(i as usize) {
                        p0.flat_total[i].wrapping_add(1)
                    } else {
                        p0.flat_total[i]
                    }),
            decreases path@.len() - j,
        {
            let id: usize = path[j];
            let mut k: usize = 0;
            while k < j && path[k] != id
                invariant
                    k <= j,
                    forall|m: int| 0 <= m < k ==> path@[m] != id,
                decreases j - k,
            {
                k = k + 1;
            }
            let ghost before = path@.subrange(0, j as int);
            let ghost after = path@.subrange(0, j + 1);
            let ghost t0 = self.flat_total@;
            proof {
                assert(after =~= before.push(id));
                assert forall|x: usize| #[trigger] after.contains(x) == (before.contains(x) || x
                    == id) by {
                    if before.contains(x) {
                        let m = choose|m: int| 0 <= m < before.len() && before[m] == x;
                        assert(after[m] == x);
                    }
                    if x == id {
                        assert(after[j as int] == id);
                    }
                    if after.contains(x) {
                        let m = choose|m: int| 0 <= m < after.len() && after[m] == x;
                        if m < j {
                            assert(before[m] == x);
                        }
                    }
                }
                if k < j {
                    assert(before[k as int] == id);
                } else {
                    assert(!before.contains(id));
                }
            }
            if k == j {
                bump_at(&mut self.flat_total, id);
            }
            proof {
                assert forall|i: int| 0 <= i < p0.flat_total.len() implies #[trigger] self.flat_total@[i]
                    == (if after.contains(i as usize) {
                    p0.flat_total[i].wrapping_add(1)
                } else {
                    p0.flat_total[i]
                }) by {
                    assert(i <= total);
                    assert(t0[i] == t0[i]);
                }
            }
            j = j + 1;
        }
        assert(path@.subrange(0, j as int) =~= path@);
        assert(self.flat_total@ =~= p0.recorded(path@).flat_total);
        let mut root_first: Vec<usize> = Vec::new();
        let mut k: usize = path.len();
        while k > 0
            invariant
                k <= path@.len(),
                root_first@.len() == path@.len() - k,
                forall|m: int|
                    0 <= m < root_first@.len() ==> root_first@[m] == path@[path@.len() - 1 - m],
            decreases k,
        {
            k = k - 1;
            root_first.push(path[k]);
        }
        assert(root_first@ =~= path@.reverse());
        let mut i: usize = 0;
        let ghost s1 = *self;
        while i < self.paths.len()
            invariant
                i <= self.paths@.len(),
                *self == s1,
                path_index(p0.paths, root_first@, 0) == path_index(
                    p0.paths,
                    root_first@,
                    i as int,
                ),
            decreases self.paths@.len() - i,
        {
            if same_path(&self.paths[i], &root_first) {
                bump_at(&mut self.path_counts, i);
                assert(self@ =~= p0.recorded(path@));
                return ;
            }
            i = i + 1;
        }
        self.paths.push(root_first);
        self.path_counts.push(1);
        assert(self@.paths =~= p0.recorded(path@).paths);
    }

    /// Tally one sample of a name alone.
    fn sample(&mut self, name: String)
        requires
            old(self)@.wf(),
        ensures
            final(self)@.wf(),
            final(self)@ == old(self)@.sampled(name@),
    {
        let id: usize = self.intern(name);
        let mut ids: Vec<usize> = Vec::new();
        ids.push(id);
        self.record(&ids);
    }

    /// Forget the methods of another collection epoch.
    fn enter_epoch(&mut self, epoch: u64)
        requires
            old(self)@.wf(),
        ensures
            final(self)@.wf(),
            final(self)@ == old(self)@.in_epoch(epoch),
    {
        if self.cache_epoch != epoch {
            self.addr_cache = HashMap::new();
            self.cache_epoch = epoch;
        }
    }

    /// The id that a method has in this epoch, if it was met.
    fn known_id(&self, method: Value) -> (r: Option<usize>)
        ensures
            r == if method.tagged_ptr() && self@.known.dom().contains(method.0) {
                Some(self@.known[method.0])
            } else {
                None
            },
    {
        broadcast use vstd::std_specs::hash::group_hash_axioms;

        if method.is_ptr() {
            match self.addr_cache.get(&method.0) {
                Some(id) => Some(*id),
                None => None,
            }
        } else {
            None
        }
    }

    /// The id of a method not met before in this epoch.
    fn identify(&mut self, method: Value, name: String) -> (id: usize)
        requires
            old(self)@.wf(),
        ensures
            final(self)@.wf(),
            id == old(self)@.id_of(name@),
            id < final(self)@.names.len(),
            final(self)@ == if method.tagged_ptr() {
                ProfilerView {
                    known: old(self)@.known.insert(method.0, id),
                    ..old(self)@.interned(name@)
                }
            } else {
                old(self)@.interned(name@)
            },
    {
        broadcast use vstd::std_specs::hash::group_hash_axioms;

        let id: usize = self.intern(name);
        if method.is_ptr() {
            self.addr_cache.insert(method.0, id);
        }
        id
    }
}

// ---------------------------------------------------------------------------
// Symbolization
// ---------------------------------------------------------------------------
/// What [`String::from_utf8_lossy`] makes of bytes.
pub uninterp spec fn lossy_text(bytes: Seq<u8>) -> Seq<char>;

/// Calls [`String::from_utf8_lossy`]. The result is a function of the bytes;
/// where they are valid UTF-8 it is the text that they encode.
#[verifier::external_body]
pub(crate) fn utf8_lossy(bytes: &Vec<u8>) -> (s: String)
    ensures
        s@ == lossy_text(bytes@),
        vstd::utf8::valid_utf8(bytes@) ==> s@ == vstd::utf8::decode_utf8(bytes@),
{
    String::from_utf8_lossy(bytes).into_owned()
}

/// Human names of the bootstrap classes, which have no name slot.
pub open spec fn class_label(idx: u32) -> Option<Seq<char>> {
    if idx == CLASS_OBJECT {
        Some("Object"@)
    } else if idx == CLASS_BEHAVIOR {
        Some("Behavior"@)
    } else if idx == CLASS_CLASS {
        Some("Class"@)
    } else if idx == CLASS_METACLASS {
        Some("Metaclass"@)
    } else if idx == CLASS_UNDEFINED_OBJECT {
        Some("UndefinedObject"@)
    } else if idx == CLASS_TRUE {
        Some("True"@)
    } else if idx == CLASS_FALSE {
        Some("False"@)
    } else if idx == CLASS_SMALLINTEGER {
        Some("SmallInteger"@)
    } else if idx == CLASS_FLOAT {
        Some("Float"@)
    } else if idx == CLASS_CHARACTER {
        Some("Character"@)
    } else if idx == CLASS_STRING {
        Some("String"@)
    } else if idx == CLASS_BYTESTRING {
        Some("ByteString"@)
    } else if idx == CLASS_SYMBOL {
        Some("Symbol"@)
    } else if idx == CLASS_ARRAY {
        Some("Array"@)
    } else if idx == CLASS_BYTEARRAY {
        Some("ByteArray"@)
    } else if idx == CLASS_ORDERED_COLLECTION {
        Some("OrderedCollection"@)
    } else if idx == CLASS_ASSOCIATION {
        Some("Association"@)
    } else if idx == CLASS_BLOCKCLOSURE {
        Some("BlockClosure"@)
    } else if idx == CLASS_COMPILEDMETHOD {
        Some("CompiledMethod"@)
    } else if idx == CLASS_COMPILEDBLOCK {
        Some("CompiledBlock"@)
    } else if idx == CLASS_PROCESS {
        Some("Process"@)
    } else if idx == CLASS_SEMAPHORE {
        Some("Semaphore"@)
    } else if idx == CLASS_METHODDICTIONARY {
        Some("MethodDictionary"@)
    } else if idx == CLASS_PROCESSOR_SCHEDULER {
        Some("ProcessorScheduler"@)
    } else if idx == CLASS_MESSAGE {
        Some("Message"@)
    } else if idx == CLASS_SYSTEM_DICTIONARY {
        Some("SystemDictionary"@)
    } else {
        None
    }
}

/// The name of a bootstrap class.
pub fn treaty_class_name(idx: u32) -> (r: Option<&'static str>)
    ensures
        r is Some == class_label(idx) is Some,
        r is Some ==> r->0@ == class_label(idx)->0,
{
    if idx == CLASS_OBJECT {
        Some("Object")
    } else if idx == CLASS_BEHAVIOR {
        Some("Behavior")
    } else if idx == CLASS_CLASS {
        Some("Class")
    } else if idx == CLASS_METACLASS {
        Some("Metaclass")
    } else if idx == CLASS_UNDEFINED_OBJECT {
        Some("UndefinedObject")
    } else if idx == CLASS_TRUE {
        Some("True")
    } else if idx == CLASS_FALSE {
        Some("False")
    } else if idx == CLASS_SMALLINTEGER {
        Some("SmallInteger")
    } else if idx == CLASS_FLOAT {
        Some("Float")
    } else if idx == CLASS_CHARACTER {
        Some("Character")
    } else if idx == CLASS_STRING {
        Some("String")
    } else if idx == CLASS_BYTESTRING {
        Some("ByteString")
    } else if idx == CLASS_SYMBOL {
        Some("Symbol")
    } else if idx == CLASS_ARRAY {
        Some("Array")
    } else if idx == CLASS_BYTEARRAY {
        Some("ByteArray")
    } else if idx == CLASS_ORDERED_COLLECTION {
        Some("OrderedCollection")
    } else if idx == CLASS_ASSOCIATION {
        Some("Association")
    } else if idx == CLASS_BLOCKCLOSURE {
        Some("BlockClosure")
    } else if idx == CLASS_COMPILEDMETHOD {
        Some("CompiledMethod")
    } else if idx == CLASS_COMPILEDBLOCK {
        Some("CompiledBlock")
    } else if idx == CLASS_PROCESS {
        Some("Process")
    } else if idx == CLASS_SEMAPHORE {
        Some("Semaphore")
    } else if idx == CLASS_METHODDICTIONARY {
        Some("MethodDictionary")
    } else if idx == CLASS_PROCESSOR_SCHEDULER {
        Some("ProcessorScheduler")
    } else if idx == CLASS_MESSAGE {
        Some("Message")
    } else if idx == CLASS_SYSTEM_DICTIONARY {
        Some("SystemDictionary")
    } else {
        None
    }
}

impl VmView {
    /// The value is a reference to a byte object other than nil.
    pub open spec fn byte_object(self, v: Value) -> bool {
        v.tagged_ptr() && v != self.nil() && self.heap.bytes_ok(v.addr())
    }

    /// A class's display name: the image's name slot (the first after the
    /// machine's own) when it holds a symbol, else the bootstrap name, else
    /// the class index.
    pub open spec fn class_name(self, cls: Value) -> Seq<char> {
        let a = cls.addr();
        if !cls.tagged_ptr() || cls == self.nil() || !self.heap.whole(a) || self.heap.hdr(
            a,
        ).byte_format() {
            "?"@
        } else if self.heap.nslots(a) > BEHAVIOR_NUM_VM_SLOTS && self.byte_object(
            self.heap.slot(a, BEHAVIOR_NUM_VM_SLOTS as int),
        ) {
            lossy_text(self.heap.bytes(self.heap.slot(a, BEHAVIOR_NUM_VM_SLOTS as int).addr()))
        } else if self.heap.nslots(a) > BEHAVIOR_CLASS_INDEX && self.heap.slot(
            a,
            BEHAVIOR_CLASS_INDEX as int,
        ).tagged_int() {
            let i = self.heap.slot(a, BEHAVIOR_CLASS_INDEX as int).int_value() as u32;
            match class_label(i) {
                Some(s) => s,
                None => "class#"@ + crate::text::dec(i as int),
            }
        } else {
            "?"@
        }
    }

    /// The display name of a frame's method: `Class>>selector`, or
    /// `[] in ...` for a block.
    pub open spec fn method_name(self, m: Value, depth: nat) -> Seq<char>
        decreases 5 - depth,
    {
        let a = m.addr();
        if !m.tagged_ptr() || m == self.nil() || depth > 4 || !self.heap.plausible(a) {
            "<invalid-frame>"@
        } else if self.heap.hdr(a).class_field() == CLASS_COMPILEDBLOCK && self.heap.shaped(
            a,
            BLOCK_OUTER_METHOD + 1,
        ) {
            "[] in "@ + self.method_name(
                self.heap.slot(a, BLOCK_OUTER_METHOD as int),
                depth + 1,
            )
        } else if self.heap.hdr(a).class_field() == CLASS_COMPILEDMETHOD && self.heap.shaped(
            a,
            METHOD_CLASS + 1,
        ) {
            let sel = self.heap.slot(a, METHOD_SELECTOR as int);
            self.class_name(self.heap.slot(a, METHOD_CLASS as int)) + ">>"@ + (if self.byte_object(
                sel,
            ) {
                lossy_text(self.heap.bytes(sel.addr()))
            } else {
                "doIt"@
            })
        } else {
            "<invalid-frame>"@
        }
    }

    /// The methods of at most `n` frames of a stack, from the frame at offset
    /// `off` towards the base.
    pub open spec fn frame_methods(self, stack: Value, off: int, n: nat) -> Seq<Value>
        decreases n,
    {
        if n == 0 || off < 0 || !self.heap.shaped(stack.addr(), off + FRAME_METHOD + 1) {
            Seq::empty()
        } else {
            let caller = self.heap.slot(stack.addr(), off + FRAME_CALLER);
            seq![self.heap.slot(stack.addr(), off + FRAME_METHOD)] + (if caller.tagged_int()
                && caller.int_value() > 0 {
                self.frame_methods(stack, caller.int_value() as int, (n - 1) as nat)
            } else {
                Seq::empty()
            })
        }
    }

    /// The store and the ids of the methods `list[i..]`, after `ids`.
    pub open spec fn identified_all(
        self,
        p: ProfilerView,
        list: Seq<Value>,
        i: int,
        ids: Seq<usize>,
    ) -> (ProfilerView, Seq<usize>)
        decreases list.len() - i,
    {
        if i < 0 || i >= list.len() {
            (p, ids)
        } else {
            let (p1, id) = p.identified(self.epoch, list[i], self.method_name(list[i], 0));
            self.identified_all(p1, list, i + 1, ids.push(id))
        }
    }

    /// The machine after a sample of the given frame chain.
    pub open spec fn sample_taken(self, stack: Value, off: int, pseudo: Option<Seq<char>>) -> VmView {
        let list = self.frame_methods(stack, off, MAX_SAMPLE_DEPTH as nat);
        let (p, ids) = match pseudo {
            Some(s) => self.identified_all(
                self.prof.interned(s),
                list,
                0,
                seq![self.prof.id_of(s)],
            ),
            None => self.identified_all(self.prof, list, 0, Seq::empty()),
        };
        VmView { prof: p.recorded(ids), ..self }
    }

    /// The machine after a sample of the active process's saved state, under
    /// a pseudo-leaf; the pseudo-leaf alone when no process is running.
    pub open spec fn process_sampled(self, pseudo: Seq<char>) -> VmView {
        let p = self.active;
        let a = p.addr();
        let stack = self.heap.slot(a, PROCESS_STACK as int);
        let off = self.heap.slot(a, PROCESS_FRAME_OFFSET as int);
        if p.tagged_ptr() && p != self.nil() && self.heap.shaped(a, PROCESS_FRAME_OFFSET + 1)
            && stack.tagged_ptr() && stack != self.nil() && off.tagged_int() {
            self.sample_taken(stack, off.int_value() as int, Some(pseudo))
        } else {
            VmView { prof: self.prof.sampled(pseudo), ..self }
        }
    }

    /// A sample is due at a boundary of the machine.
    pub open spec fn sample_wanted(self) -> bool {
        self.prof.active && (self.safepoint.sample_due || self.prof.every_poll)
    }

    /// The machine after asking whether a sample is due: the request is
    /// consumed.
    pub open spec fn sample_asked(self) -> VmView {
        if self.prof.active {
            VmView {
                safepoint: SafepointShared { sample_due: false, ..self.safepoint },
                ..self
            }
        } else {
            self
        }
    }

    /// The machine after a boundary at which a due sample is taken under a
    /// pseudo-leaf.
    pub open spec fn boundary(self, pseudo: Seq<char>) -> VmView {
        if self.sample_wanted() {
            self.sample_asked().process_sampled(pseudo)
        } else {
            self.sample_asked()
        }
    }
}

/// The profiler's store plays no part in a display name.
proof fn lemma_same_name(v: VmView, prof: ProfilerView, m: Value, depth: nat)
    ensures
        (VmView { prof, ..v }).method_name(m, depth) == v.method_name(m, depth),
    decreases 5 - depth,
{
    let w = VmView { prof, ..v };
    if depth <= 4 {
        let o = v.heap.slot(m.addr(), BLOCK_OUTER_METHOD as int);
        lemma_same_name(v, prof, o, depth + 1);
        let c = v.heap.slot(m.addr(), METHOD_CLASS as int);
        assert(w.class_name(c) == v.class_name(c));
    }
}

impl Vm {
    /// Start sampling at the given interval, at least one millisecond, with
    /// an empty store. The host's timer raises the requests.
    pub fn profiler_start(&mut self, interval_ms: u64)
        requires
            old(self).wf(),
        ensures
            final(self).wf(),
            final(self)@ == (VmView {
                prof: ProfilerView {
                    active: true,
                    interval_ms: if interval_ms < 1 {
                        1
                    } else {
                        interval_ms
                    },
                    ..old(self)@.prof.cleared()
                },
                safepoint: SafepointShared { sample_due: false, ..old(self)@.safepoint },
                ..old(self)@
            }),
    {
        self.profiler_stop();
        self.profiler.reset_store();
        self.profiler.active = true;
        self.profiler.interval_ms = if interval_ms < 1 {
            1
        } else {
            interval_ms
        };
    }

    /// Stop sampling. The store stays for reporting.
    pub fn profiler_stop(&mut self)
        requires
            old(self).wf(),
        ensures
            final(self).wf(),
            final(self)@ == (VmView {
                prof: ProfilerView { active: false, ..old(self)@.prof },
                safepoint: SafepointShared { sample_due: false, ..old(self)@.safepoint },
                ..old(self)@
            }),
    {
        self.profiler.active = false;
        self.safepoint = SafepointShared { armed: self.safepoint.armed, sample_due: false };
    }

    /// The next safepoint poll takes exactly one sample.
    pub fn force_sample_at_next_poll(&mut self)
        requires
            old(self).wf(),
        ensures
            final(self).wf(),
            final(self)@ == (VmView {
                prof: ProfilerView { active: true, ..old(self)@.prof },
                safepoint: SafepointShared { armed: true, sample_due: true },
                ..old(self)@
            }),
    {
        self.profiler.active = true;
        self.safepoint = SafepointShared { armed: true, sample_due: true };
    }

    /// Whether a sample is due at a boundary of the machine; consumes the
    /// request.
    pub(crate) fn sample_due_here(&mut self) -> (due: bool)
        requires
            old(self).wf(),
        ensures
            final(self).wf(),
            due == old(self)@.sample_wanted(),
            final(self)@ == old(self)@.sample_asked(),
            final(self).counters == old(self).counters,
    {
        if self.profiler.active {
            let due = self.safepoint.sample_due;
            self.safepoint = SafepointShared { armed: self.safepoint.armed, sample_due: false };
            due || self.profiler.sample_every_poll
        } else {
            false
        }
    }

    fn is_byte_object(&self, v: Value) -> (b: bool)
        requires
            self.wf(),
        ensures
            b == self@.byte_object(v),
    {
        v.is_ptr() && v != self.nil() && self.heap.bytes_ok(v)
    }

    /// The bytes of the byte object a value denotes, as text.
    fn object_text(&self, v: Value) -> (s: String)
        requires
            self.wf(),
            self@.byte_object(v),
        ensures
            s@ == lossy_text(self@.heap.bytes(v.addr())),
    {
        let data = self.heap.bytes(v.0 as usize);
        utf8_lossy(&data)
    }

    pub fn class_display_name(&self, cls: Value) -> (s: String)
        requires
            self.wf(),
        ensures
            s@ == self@.class_name(cls),
    {
        if !cls.is_ptr() || cls == self.nil() || !self.heap.whole(cls) || self.heap.header_of(
            cls,
        ).is_bytes() {
            return text("?");
        }
        let n: u64 = self.heap.count_of(cls);
        if n > BEHAVIOR_NUM_VM_SLOTS as u64 {
            let name = self.heap.peek(cls, BEHAVIOR_NUM_VM_SLOTS);
            if self.is_byte_object(name) {
                return self.object_text(name);
            }
        }
        if n > BEHAVIOR_CLASS_INDEX as u64 {
            let idx = self.heap.peek(cls, BEHAVIOR_CLASS_INDEX);
            if idx.is_int() {
                let i: u32 = idx.as_int() as u32;
                return match treaty_class_name(i) {
                    Some(s) => text(s),
                    None => {
                        let mut s = text("class#");
                        append_dec(&mut s, i as u64);
                        s
                    },
                };
            }
        }
        text("?")
    }

    fn method_display_name(&self, method: Value, depth: usize) -> (s: String)
        requires
            self.wf(),
        ensures
            s@ == self@.method_name(method, depth as nat),
        decreases 5 - depth,
    {
        if !method.is_ptr() || method == self.nil() || depth > 4 || !self.heap.plausible_at(
            method.0,
        ) {
            return text("<invalid-frame>");
        }
        let c: u32 = self.heap.header_of(method).class_index();
        if c == CLASS_COMPILEDBLOCK && self.heap.shaped(method, BLOCK_OUTER_METHOD + 1) {
            let outer = self.heap.peek(method, BLOCK_OUTER_METHOD);
            let mut s = text("[] in ");
            let rest = self.method_display_name(outer, depth + 1);
            s.append(rest.as_str());
            s
        } else if c == CLASS_COMPILEDMETHOD && self.heap.shaped(method, METHOD_CLASS + 1) {
            let sel = self.heap.peek(method, METHOD_SELECTOR);
            let cls = self.heap.peek(method, METHOD_CLASS);
            let mut s = self.class_display_name(cls);
            s.append(">>");
            if self.is_byte_object(sel) {
                let t = self.object_text(sel);
                s.append(t.as_str());
            } else {
                s.append("doIt");
            }
            s
        } else {
            text("<invalid-frame>")
        }
    }

    /// The id of a method: that which it has in this collection epoch, or that
    /// of its display name.
    fn method_sample_id(&mut self, method: Value) -> (id: usize)
        requires
            old(self).wf(),
        ensures
            final(self).wf(),
            ({
                let (p, i) = old(self)@.prof.identified(
                    old(self)@.epoch,
                    method,
                    old(self)@.method_name(method, 0),
                );
                &&& id == i
                &&& id < p.names.len()
                &&& p.names.len() >= old(self)@.prof.names.len()
                &&& final(self)@ == (VmView { prof: p, ..old(self)@ })
            }),
            final(self).counters == old(self).counters,
    {
        self.profiler.enter_epoch(self.gc_epoch);
        if let Some(id) = self.profiler.known_id(method) {
            return id;
        }
        proof {
            lemma_same_name(old(self)@, self@.prof, method, 0);
        }
        let name = self.method_display_name(method, 0);
        let id: usize = self.profiler.identify(method, name);
        id
    }

    /// Walk the frame chain from the frame at the given offset and record
    /// the sample, with an optional pseudo-leaf on top.
    #[verifier::loop_isolation(false)]
    #[verifier::rlimit(60)]
    pub fn take_sample(&mut self, stack: Value, frame: u64, pseudo: Option<&str>)
        requires
            old(self).wf(),
        ensures
            final(self).wf(),
            final(self)@ == old(self)@.sample_taken(
                stack,
                frame as int,
                match pseudo {
                    Some(p) => Some(p@),
                    None => None,
                },
            ),
            final(self).counters == old(self).counters,
    {
        let ghost v0 = self@;
        let mut ids: Vec<usize> = Vec::new();
        if let Some(p) = pseudo {
            let id: usize = self.profiler.intern(text(p));
            ids.push(id);
            assert(ids@ =~= seq![v0.prof.id_of(p@)]);
        }
        let ghost all = v0.frame_methods(stack, frame as int, MAX_SAMPLE_DEPTH as nat);
        let ghost whole = v0.identified_all(self@.prof, all, 0, ids@);
        let ghost mut i: int = 0;
        let mut off: u64 = frame;
        let mut n: usize = MAX_SAMPLE_DEPTH;
        let mut going = true;
        assert(all.skip(0) =~= all);
        while going && n > 0
            invariant
                self.wf(),
                self@ == (VmView { prof: self@.prof, ..v0 }),
                self.counters == old(self).counters,
                n <= MAX_SAMPLE_DEPTH,
                0 <= i <= all.len(),
                going ==> all.skip(i) == v0.frame_methods(stack, off as int, n as nat),
                !going ==> i == all.len(),
                whole == v0.identified_all(self@.prof, all, i, ids@),
                forall|j: int| 0 <= j < ids@.len() ==> ids@[j] < self@.prof.names.len(),
            decreases
                    n,
                    (if going {
                        1int
                    } else {
                        0int
                    }),
        {
            if off > usize::MAX as u64 - 8 || !self.heap.shaped(
                stack,
                off as usize + FRAME_METHOD + 1,
            ) {
                going = false;
                assert(all.skip(i).len() == 0);
            } else {
                let f: usize = off as usize;
                let method = self.heap.peek(stack, f + FRAME_METHOD);
                let caller = self.heap.peek(stack, f + FRAME_CALLER);
                let ghost rest = if caller.tagged_int() && caller.int_value() > 0 {
                    v0.frame_methods(stack, caller.int_value() as int, (n - 1) as nat)
                } else {
                    Seq::empty()
                };
                proof {
                    assert(all.skip(i) == seq![method] + rest);
                    assert(all.skip(i)[0] == all[i]);
                    assert(all.skip(i + 1) =~= all.skip(i).skip(1));
                    assert((seq![method] + rest).skip(1) =~= rest);
                    lemma_same_name(v0, self@.prof, method, 0);
                }
                let id: usize = self.method_sample_id(method);
                ids.push(id);
                proof {
                    i = i + 1;
                }
                if caller.is_int() && caller.as_int() > 0 {
                    off = caller.as_int() as u64;
                } else {
                    going = false;
                    assert(all.skip(i).len() == 0);
                }
                n = n - 1;
            }
        }
        proof {
            if going {
                assert(all.skip(i).len() == 0);
            }
        }
        self.profiler.record(&ids);
    }

    /// Sample the active process's saved state.
    pub fn take_sample_from_process(&mut self, pseudo: &str)
        requires
            old(self).wf(),
        ensures
            final(self).wf(),
            final(self)@ == old(self)@.process_sampled(pseudo@),
            final(self).counters == old(self).counters,
    {
        let p = self.active_process;
        if p.is_ptr() && p != self.nil() && self.heap.shaped(p, PROCESS_FRAME_OFFSET + 1) {
            let stack = self.heap.peek(p, PROCESS_STACK);
            let off = self.heap.peek(p, PROCESS_FRAME_OFFSET);
            if stack.is_ptr() && stack != self.nil() && off.is_int() {
                if off.as_int() >= 0 {
                    self.take_sample(stack, off.as_int() as u64, Some(pseudo));
                } else {
                    proof {
                        let fr = self@.frame_methods(
                            stack,
                            off.int_value() as int,
                            MAX_SAMPLE_DEPTH as nat,
                        );
                        assert(fr =~= Seq::empty());
                    }
                    self.profiler.sample(text(pseudo));
                }
                return ;
            }
        }
        self.profiler.sample(text(pseudo));
    }

    /// Take a due sample under a pseudo-leaf.
    pub(crate) fn sample_boundary(&mut self, pseudo: &str)
        requires
            old(self).wf(),
        ensures
            final(self).wf(),
            final(self)@ == old(self)@.boundary(pseudo@),
            final(self).counters == old(self).counters,
    {
        if self.sample_due_here() {
            self.take_sample_from_process(pseudo);
        }
    }
}

} // verus!
