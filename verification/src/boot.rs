//! Making a machine from nothing: nil, true and false, the class objects of
//! the reserved class indexes, the special objects, and the scheduler.

use crate::counters::{Counters, CountersView};
use crate::heap::{Heap, HeapConfig, HeapView, MAX_CLASS_INDEX};
use crate::host_ui::HostUi;
use crate::profile::{Profiler, ProfilerView, SafepointShared};
use crate::value::Value;
use crate::vm::{LookupEntry, Vm, VmConfig, VmView};
use crate::treaty::{
    BEHAVIOR_CLASS_INDEX, BEHAVIOR_FORMAT_AND_SLOTS, BEHAVIOR_METHOD_DICTIONARY,
    BEHAVIOR_NUM_VM_SLOTS, BEHAVIOR_SUPERCLASS, BLOCK_NUM_SLOTS, CLASS_ARRAY, CLASS_ASSOCIATION,
    CLASS_BEHAVIOR, CLASS_BLOCKCLOSURE, CLASS_BOX, CLASS_BYTEARRAY, CLASS_BYTESTRING,
    CLASS_CHARACTER, CLASS_CLASS, CLASS_COMPILEDBLOCK, CLASS_COMPILEDMETHOD, CLASS_FALSE,
    CLASS_FLOAT, CLASS_LARGE_NEGATIVE_INTEGER, CLASS_LARGE_POSITIVE_INTEGER, CLASS_LINKED_LIST,
    CLASS_MESSAGE, CLASS_METACLASS, CLASS_METHODDICTIONARY, CLASS_OBJECT,
    CLASS_ORDERED_COLLECTION, CLASS_PROCESS, CLASS_PROCESSOR_SCHEDULER, CLASS_SEMAPHORE,
    CLASS_STACK, CLASS_STRING, CLASS_SYMBOL, CLASS_TRUE, CLASS_UNDEFINED_OBJECT,
    CLOSURE_CAPTURED_BASE, DEFAULT_MAX_STACK_BYTES, FIRST_UNRESERVED_CLASS_INDEX, FMT_BYTES_BASE,
    FMT_FIXED, FMT_PTRS, FORMAT_AND_SLOTS_FORMAT_SHIFT, LARGE_OBJECT_BYTES, LIST_NUM_VM_SLOTS,
    LOOKUP_CACHE_SIZE, MDICT_KEYS, MDICT_NUM_VM_SLOTS, MDICT_VALUES, METHOD_NUM_SLOTS,
    NUM_PRIORITIES, PROCESS_NUM_VM_SLOTS, SCHEDULER_NUM_VM_SLOTS, SCHEDULER_QUEUES,
    SEMAPHORE_EXCESS_SIGNALS, SEMAPHORE_NUM_VM_SLOTS, SPECIAL_FALSE, SPECIAL_LOW_SPACE_SEMAPHORE,
    SPECIAL_OBJECTS_COUNT, SPECIAL_PROCESSOR, SPECIAL_SEL_DOES_NOT_UNDERSTAND,
    SPECIAL_SEL_MUST_BE_BOOLEAN, SPECIAL_SPECIALIZED_SELECTORS, SPECIAL_TIMER_SEMAPHORE,
    SPECIAL_TRUE, SPECSEL_AT, SPECSEL_AT_PUT, SPECSEL_CLASS, SPECSEL_COUNT, SPECSEL_EQ,
    SPECSEL_GE, SPECSEL_GT, SPECSEL_IDENTICAL, SPECSEL_INT_DIV, SPECSEL_LE, SPECSEL_LT,
    SPECSEL_MINUS, SPECSEL_MOD, SPECSEL_PLUS, SPECSEL_SIZE, SPECSEL_TIMES, TENURE_AGE,
};
use vstd::prelude::*;
use vstd::string::*;

verus! {

broadcast use vstd::string::group_string_axioms;

// ---------------------------------------------------------------------------
// Building blocks in old space
// ---------------------------------------------------------------------------
impl HeapView {
    /// An empty method dictionary in old space.
    pub open spec fn mdict_made(self, nil: Value) -> Option<(HeapView, Value)> {
        match self.alloc_old(CLASS_ARRAY, FMT_PTRS, 0, Some(nil.0), false) {
            None => None,
            Some((h1, keys)) => match h1.alloc_old(CLASS_ARRAY, FMT_PTRS, 0, Some(nil.0), false) {
                None => None,
                Some((h2, vals)) => match h2.alloc_old(
                    CLASS_METHODDICTIONARY,
                    FMT_FIXED,
                    MDICT_NUM_VM_SLOTS as int,
                    Some(nil.0),
                    false,
                ) {
                    None => None,
                    Some((h3, md)) => Some(
                        (
                            h3.set_slot(md, MDICT_KEYS as int, Value(keys as u64)).set_slot(
                                md,
                                MDICT_VALUES as int,
                                Value(vals as u64),
                            ),
                            Value(md as u64),
                        ),
                    ),
                },
            },
        }
    }

    /// A class object in old space with an empty method dictionary and no
    /// superclass.
    pub open spec fn class_made(self, idx: u32, format: u64, nslots: usize, nil: Value) -> Option<
        (HeapView, Value),
    > {
        match self.mdict_made(nil) {
            None => None,
            Some((h1, mdict)) => match h1.alloc_old(
                CLASS_CLASS,
                FMT_FIXED,
                BEHAVIOR_NUM_VM_SLOTS as int,
                Some(nil.0),
                false,
            ) {
                None => None,
                Some((h2, c)) => Some(
                    (
                        h2.set_slot(c, BEHAVIOR_SUPERCLASS as int, nil).set_slot(
                            c,
                            BEHAVIOR_METHOD_DICTIONARY as int,
                            mdict,
                        ).set_slot(
                            c,
                            BEHAVIOR_FORMAT_AND_SLOTS as int,
                            crate::value::tag(shape_code(format, nslots)),
                        ).set_slot(
                            c,
                            BEHAVIOR_CLASS_INDEX as int,
                            crate::value::tag(idx as i64),
                        ),
                        Value(c as u64),
                    ),
                ),
            },
        }
    }

    /// A semaphore in old space without signals or waiters.
    pub open spec fn semaphore_made(self, nil: Value) -> Option<(HeapView, Value)> {
        match self.alloc_old(
            CLASS_SEMAPHORE,
            FMT_FIXED,
            SEMAPHORE_NUM_VM_SLOTS as int,
            Some(nil.0),
            false,
        ) {
            None => None,
            Some((h, s)) => Some(
                (
                    h.set_slot(s, SEMAPHORE_EXCESS_SIGNALS as int, crate::value::tag(0)),
                    Value(s as u64),
                ),
            ),
        }
    }

    /// A symbol with the given characters in old space, immutable.
    pub open spec fn symbol_made(self, bytes: Seq<u8>) -> Option<(HeapView, Value)> {
        match self.alloc_old(
            CLASS_SYMBOL,
            crate::heap::byte_format_for(bytes.len() as int),
            crate::heap::slots_for(bytes.len() as int),
            None,
            false,
        ) {
            None => None,
            Some((h, a)) => Some(
                (
                    h.put_bytes(a, bytes, bytes.len() as int).made_immutable(a),
                    Value(a as u64),
                ),
            ),
        }
    }
}

/// A class's format-and-slots integer.
pub open spec fn shape_code(format: u64, nslots: usize) -> i64 {
    ((format as i64) << 16u32) | (nslots as i64)
}

/// What a function that makes an object of `n` slots in old space answers:
/// the object and heap that `planned` gives, using `k` words, and `None`
/// only where they do not fit.
pub open spec fn made(
    before: HeapView,
    planned: Option<(HeapView, Value)>,
    r: Option<Value>,
    after: HeapView,
    n: int,
    k: int,
) -> bool {
    &&& before.old.fits(k) ==> r is Some
    &&& after.wf()
    &&& after.layout() == before.layout()
    &&& match planned {
        None => r is None,
        Some((h, v)) => {
            &&& r == Some(v)
            &&& after == h
            &&& h.old.alloc == before.old.alloc + k
            &&& v.tagged_ptr()
            &&& v.addr() <= usize::MAX
            &&& h.plausible(v.addr())
            &&& v.addr() + 8 + 8 * n <= h.limit_of(v.addr())
        },
    }
}

impl Heap {
    /// A fixed- or pointer-format object in old space.
    pub(crate) fn make_old(&mut self, class: u32, format: u64, n: usize, nil: Value) -> (r: Option<Value>)
        requires
            old(self).wf(),
            class <= MAX_CLASS_INDEX,
            format <= 15,
        ensures
            final(self).wf(),
            made(
                old(self)@,
                match old(self)@.alloc_old(class, format, n as int, Some(nil.0), false) {
                    None => None,
                    Some((h, a)) => Some((h, Value(a as u64))),
                },
                r,
                final(self)@,
                n as int,
                crate::heap::words_for(n as int),
            ),
            r is None ==> final(self)@ == old(self)@,
    {
        proof {
            if self@.old.fits(crate::heap::words_for(n as int)) {
                crate::objects::law_alloc_old(self@, class, format, n as int, Some(nil.0), false);
            }
        }
        match self.alloc_in_old(class, format, n, Some(nil.0), false) {
            Some(a) => Some(Value::from_ptr(a)),
            None => None,
        }
    }

    fn make_mdict(&mut self, nil: Value) -> (r: Option<Value>)
        requires
            old(self).wf(),
        ensures
            final(self).wf(),
            made(
                old(self)@,
                old(self)@.mdict_made(nil),
                r,
                final(self)@,
                MDICT_NUM_VM_SLOTS as int,
                5,
            ),
    {
        let keys = match self.make_old(CLASS_ARRAY, FMT_PTRS, 0, nil) {
            Some(v) => v,
            None => {
                return None;
            },
        };
        let vals = match self.make_old(CLASS_ARRAY, FMT_PTRS, 0, nil) {
            Some(v) => v,
            None => {
                return None;
            },
        };
        let md = match self.make_old(CLASS_METHODDICTIONARY, FMT_FIXED, MDICT_NUM_VM_SLOTS, nil) {
            Some(v) => v,
            None => {
                return None;
            },
        };
        proof {
            crate::objects::lemma_write_frame(self@, md.addr() + 8, keys.0);
            crate::objects::lemma_write_frame(
                self@.write(md.addr() + 8, keys.0),
                md.addr() + 16,
                vals.0,
            );
        }
        self.poke(md, MDICT_KEYS, keys);
        self.poke(md, MDICT_VALUES, vals);
        Some(md)
    }

    pub(crate) fn make_class(&mut self, idx: u32, format: u64, nslots: usize, nil: Value) -> (r: Option<Value>)
        requires
            old(self).wf(),
            format <= 15,
            nslots <= 0xffff,
        ensures
            final(self).wf(),
            made(
                old(self)@,
                old(self)@.class_made(idx, format, nslots, nil),
                r,
                final(self)@,
                BEHAVIOR_NUM_VM_SLOTS as int,
                10,
            ),
    {
        let mdict = match self.make_mdict(nil) {
            Some(v) => v,
            None => {
                return None;
            },
        };
        let c = match self.make_old(CLASS_CLASS, FMT_FIXED, BEHAVIOR_NUM_VM_SLOTS, nil) {
            Some(v) => v,
            None => {
                return None;
            },
        };
        let code: i64 = ((format as i64) << FORMAT_AND_SLOTS_FORMAT_SHIFT) | (nslots as i64);
        proof {
            let f = format as i64;
            let n = nslots as i64;
            assert(0 <= (f << 16u32) | n <= 0xfffff) by (bit_vector)
                requires
                    0 <= f <= 15,
                    0 <= n <= 0xffff,
            ;
            let a = c.addr() + 8;
            let h0 = self@;
            let h1 = h0.write(a, nil.0);
            let h2 = h1.write(a + 8, mdict.0);
            let h3 = h2.write(a + 16, crate::value::tag(code).0);
            crate::objects::lemma_write_frame(h0, a, nil.0);
            crate::objects::lemma_write_frame(h1, a + 8, mdict.0);
            crate::objects::lemma_write_frame(h2, a + 16, crate::value::tag(code).0);
            crate::objects::lemma_write_frame(h3, a + 24, crate::value::tag(idx as i64).0);
        }
        self.poke(c, BEHAVIOR_SUPERCLASS, nil);
        self.poke(c, BEHAVIOR_METHOD_DICTIONARY, mdict);
        self.poke(c, BEHAVIOR_FORMAT_AND_SLOTS, Value::from_int(code));
        self.poke(c, BEHAVIOR_CLASS_INDEX, Value::from_int(idx as i64));
        Some(c)
    }

    pub(crate) fn make_semaphore(&mut self, nil: Value) -> (r: Option<Value>)
        requires
            old(self).wf(),
        ensures
            final(self).wf(),
            made(
                old(self)@,
                old(self)@.semaphore_made(nil),
                r,
                final(self)@,
                SEMAPHORE_NUM_VM_SLOTS as int,
                4,
            ),
    {
        let s = match self.make_old(CLASS_SEMAPHORE, FMT_FIXED, SEMAPHORE_NUM_VM_SLOTS, nil) {
            Some(v) => v,
            None => {
                return None;
            },
        };
        proof {
            crate::objects::lemma_write_frame(self@, s.addr() + 8, crate::value::tag(0).0);
        }
        self.poke(s, SEMAPHORE_EXCESS_SIGNALS, Value::from_int(0));
        Some(s)
    }

    fn make_symbol(&mut self, bytes: &[u8]) -> (r: Option<Value>)
        requires
            old(self).wf(),
        ensures
            final(self).wf(),
            made(
                old(self)@,
                old(self)@.symbol_made(bytes@),
                r,
                final(self)@,
                crate::heap::slots_for(bytes@.len() as int),
                crate::heap::words_for(crate::heap::slots_for(bytes@.len() as int)),
            ),
            r is None ==> final(self)@ == old(self)@,
    {
        let n: usize = bytes.len();
        let ghost slots = crate::heap::slots_for(n as int);
        proof {
            if self@.old.fits(crate::heap::words_for(slots)) {
                crate::objects::law_alloc_old(
                    self@,
                    CLASS_SYMBOL,
                    crate::heap::byte_format_for(n as int),
                    slots,
                    None,
                    false,
                );
            }
        }
        match self.alloc_bytes_old(CLASS_SYMBOL, n) {
            Some(a) => {
                let v = Value::from_ptr(a);
                proof {
                    lemma_put_bytes_frame(self@, a as int, bytes@, n as int);
                    let h = self@.put_bytes(a as int, bytes@, n as int);
                    crate::objects::lemma_write_frame(
                        h,
                        a as int,
                        h.hdr(a as int).regc(h.hdr(a as int).gc_field() | 128).0,
                    );
                }
                self.poke_bytes(v, bytes);
                self.set_immutable(a);
                Some(v)
            },
            None => None,
        }
    }
}

/// Storing bytes leaves everything but the words of the spaces as it is.
pub proof fn lemma_put_bytes_frame(h: HeapView, a: int, data: Seq<u8>, n: int)
    ensures
        h.put_bytes(a, data, n).ssb == h.ssb,
        h.put_bytes(a, data, n).old.alloc == h.old.alloc,
        h.put_bytes(a, data, n).from.alloc == h.from.alloc,
        h.put_bytes(a, data, n).layout() == h.layout(),
        h.wf() ==> h.put_bytes(a, data, n).wf(),
    decreases n,
{
    if n > 0 {
        lemma_put_bytes_frame(h, a, data, n - 1);
        let g = h.put_bytes(a, data, n - 1);
        let b = a + 8 + 8 * ((n - 1) / 8);
        crate::objects::lemma_write_frame(
            g,
            b,
            crate::heap::with_byte(g.read(b), (n - 1) % 8, data[n - 1]),
        );
    }
}

// ---------------------------------------------------------------------------
// Symbols
// ---------------------------------------------------------------------------
/// Where a byte string first occurs in a list from index `i` on; the list's
/// length where it does not.
pub open spec fn bytes_index(names: Seq<Seq<u8>>, name: Seq<u8>, i: int) -> int
    decreases names.len() - i,
{
    if i >= names.len() {
        names.len() as int
    } else if names[i] == name {
        i
    } else {
        bytes_index(names, name, i + 1)
    }
}

impl VmView {
    /// The symbol with the given characters, made if it is new; `None` where
    /// old space is full.
    pub open spec fn interned(self, name: Seq<u8>) -> Option<(VmView, Value)> {
        let i = bytes_index(self.symbol_names, name, 0);
        if i < self.symbol_names.len() {
            Some((self, self.symbols[i]))
        } else {
            match self.heap.symbol_made(name) {
                None => None,
                Some((heap, v)) => Some(
                    (
                        VmView {
                            heap,
                            symbol_names: self.symbol_names.push(name),
                            symbols: self.symbols.push(v),
                            ..self
                        },
                        v,
                    ),
                ),
            }
        }
    }
}

fn same_bytes(a: &Vec<u8>, b: &[u8]) -> (r: bool)
    ensures
        r == (a@ == b@),
{
    if a.len() != b.len() {
        return false;
    }
    let mut i: usize = 0;
    while i < a.len()
        invariant
            i <= a@.len(),
            a@.len() == b@.len(),
            forall|j: int| 0 <= j < i ==> a@[j] == b@[j],
        decreases a@.len() - i,
    {
        if a[i] != b[i] {
            return false;
        }
        i = i + 1;
    }
    assert(a@ =~= b@);
    true
}

pub(crate) fn copy_bytes(b: &[u8]) -> (r: Vec<u8>)
    ensures
        r@ == b@,
{
    let mut r: Vec<u8> = Vec::new();
    let mut i: usize = 0;
    while i < b.len()
        invariant
            i <= b@.len(),
            r@ == b@.subrange(0, i as int),
        decreases b@.len() - i,
    {
        r.push(b[i]);
        i = i + 1;
        assert(r@ =~= b@.subrange(0, i as int));
    }
    assert(r@ =~= b@);
    r
}

/// Words a symbol of `len` bytes takes.
pub open spec fn symbol_words(len: int) -> int {
    crate::heap::words_for(crate::heap::slots_for(len))
}

impl Vm {
    /// The symbol with the given characters; `None` where old space is full.
    #[verifier::loop_isolation(false)]
    #[verifier::rlimit(60)]
    pub(crate) fn try_intern(&mut self, bytes: &[u8]) -> (r: Option<Value>)
        requires
            old(self).wf(),
        ensures
            final(self).wf(),
            final(self)@.heap.layout() == old(self)@.heap.layout(),
            match old(self)@.interned(bytes@) {
                None => r is None && final(self)@ == old(self)@,
                Some((vm, v)) => r == Some(v) && final(self)@ == vm,
            },
            old(self)@.heap.old.fits(symbol_words(bytes@.len() as int)) ==> r is Some,
            final(self)@.temp_roots == old(self)@.temp_roots,
            r is Some ==> old(self)@.heap.old.alloc <= final(self)@.heap.old.alloc <= old(
                self,
            )@.heap.old.alloc + symbol_words(bytes@.len() as int),
    {
        let mut i: usize = 0;
        while i < self.symbol_names.len()
            invariant
                i <= self.symbol_names@.len(),
                bytes_index(self@.symbol_names, bytes@, 0) == bytes_index(
                    self@.symbol_names,
                    bytes@,
                    i as int,
                ),
            decreases self.symbol_names@.len() - i,
        {
            if same_bytes(&self.symbol_names[i], bytes) {
                return Some(self.symbols[i]);
            }
            i = i + 1;
        }
        let ghost v0 = self@;
        match self.heap.make_symbol(bytes) {
            None => None,
            Some(v) => {
                self.symbol_names.push(copy_bytes(bytes));
                self.symbols.push(v);
                assert(self@.symbol_names =~= v0.symbol_names.push(bytes@));
                Some(v)
            },
        }
    }

    /// The symbol with the given characters.
    pub fn intern_bytes(&mut self, bytes: &[u8]) -> (v: Value)
        requires
            old(self).wf(),
            old(self)@.interned(bytes@) is Some,
        ensures
            final(self).wf(),
            Some((final(self)@, v)) == old(self)@.interned(bytes@),
    {
        match self.try_intern(bytes) {
            Some(v) => v,
            None => Value(0),
        }
    }

    /// The symbol with the given name.
    pub fn intern(&mut self, name: &str) -> (v: Value)
        requires
            old(self).wf(),
            old(self)@.interned(name.spec_bytes()) is Some,
        ensures
            final(self).wf(),
            Some((final(self)@, v)) == old(self)@.interned(name.spec_bytes()),
    {
        self.intern_bytes(name.as_bytes())
    }

    /// A semaphore in old space.
    pub fn make_semaphore_old(&mut self) -> (v: Value)
        requires
            old(self).wf(),
            old(self)@.heap.old.fits(4),
        ensures
            final(self).wf(),
            Some((final(self)@.heap, v)) == old(self)@.heap.semaphore_made(old(self)@.nil()),
            final(self)@ == old(self)@.on_heap(final(self)@.heap),
    {
        let nil = self.nil();
        match self.heap.make_semaphore(nil) {
            Some(v) => v,
            None => Value(0),
        }
    }
}

// ---------------------------------------------------------------------------
// The bootstrap
// ---------------------------------------------------------------------------
/// Instance format of a reserved class.
pub open spec fn boot_format(idx: u32) -> u64 {
    if idx == CLASS_FLOAT || idx == CLASS_STRING || idx == CLASS_BYTESTRING || idx == CLASS_SYMBOL
        || idx == CLASS_LARGE_POSITIVE_INTEGER || idx == CLASS_LARGE_NEGATIVE_INTEGER || idx
        == CLASS_BYTEARRAY {
        FMT_BYTES_BASE
    } else if idx == CLASS_ARRAY || idx == CLASS_STACK {
        FMT_PTRS
    } else {
        FMT_FIXED
    }
}

/// Named-slot count of a reserved class.
pub open spec fn boot_slots(idx: u32) -> usize {
    if idx == CLASS_BEHAVIOR || idx == CLASS_CLASS || idx == CLASS_METACLASS {
        BEHAVIOR_NUM_VM_SLOTS
    } else if idx == CLASS_CHARACTER || idx == CLASS_BOX {
        1
    } else if idx == CLASS_ORDERED_COLLECTION || idx == CLASS_ASSOCIATION || idx == CLASS_MESSAGE {
        2
    } else if idx == CLASS_BLOCKCLOSURE {
        CLOSURE_CAPTURED_BASE
    } else if idx == CLASS_COMPILEDMETHOD {
        METHOD_NUM_SLOTS
    } else if idx == CLASS_COMPILEDBLOCK {
        BLOCK_NUM_SLOTS
    } else if idx == CLASS_PROCESS {
        PROCESS_NUM_VM_SLOTS
    } else if idx == CLASS_SEMAPHORE {
        SEMAPHORE_NUM_VM_SLOTS
    } else if idx == CLASS_METHODDICTIONARY {
        MDICT_NUM_VM_SLOTS
    } else if idx == CLASS_PROCESSOR_SCHEDULER {
        SCHEDULER_NUM_VM_SLOTS
    } else if idx == CLASS_LINKED_LIST {
        LIST_NUM_VM_SLOTS
    } else {
        0
    }
}

fn boot_shape(idx: u32) -> (r: (u64, usize))
    ensures
        r.0 == boot_format(idx),
        r.1 == boot_slots(idx),
        r.0 <= 15,
        r.1 <= 0xffff,
{
    let format: u64 = if idx == CLASS_FLOAT || idx == CLASS_STRING || idx == CLASS_BYTESTRING || idx
        == CLASS_SYMBOL || idx == CLASS_LARGE_POSITIVE_INTEGER || idx
        == CLASS_LARGE_NEGATIVE_INTEGER || idx == CLASS_BYTEARRAY {
        FMT_BYTES_BASE
    } else if idx == CLASS_ARRAY || idx == CLASS_STACK {
        FMT_PTRS
    } else {
        FMT_FIXED
    };
    let nslots: usize = if idx == CLASS_BEHAVIOR || idx == CLASS_CLASS || idx == CLASS_METACLASS {
        BEHAVIOR_NUM_VM_SLOTS
    } else if idx == CLASS_CHARACTER || idx == CLASS_BOX {
        1
    } else if idx == CLASS_ORDERED_COLLECTION || idx == CLASS_ASSOCIATION || idx == CLASS_MESSAGE {
        2
    } else if idx == CLASS_BLOCKCLOSURE {
        CLOSURE_CAPTURED_BASE
    } else if idx == CLASS_COMPILEDMETHOD {
        METHOD_NUM_SLOTS
    } else if idx == CLASS_COMPILEDBLOCK {
        BLOCK_NUM_SLOTS
    } else if idx == CLASS_PROCESS {
        PROCESS_NUM_VM_SLOTS
    } else if idx == CLASS_SEMAPHORE {
        SEMAPHORE_NUM_VM_SLOTS
    } else if idx == CLASS_METHODDICTIONARY {
        MDICT_NUM_VM_SLOTS
    } else if idx == CLASS_PROCESSOR_SCHEDULER {
        SCHEDULER_NUM_VM_SLOTS
    } else if idx == CLASS_LINKED_LIST {
        LIST_NUM_VM_SLOTS
    } else {
        0
    };
    (format, nslots)
}

/// The name of a specialized selector.
pub open spec fn selector_text(i: int) -> Seq<char> {
    if i == SPECSEL_PLUS {
        "+"@
    } else if i == SPECSEL_MINUS {
        "-"@
    } else if i == SPECSEL_TIMES {
        "*"@
    } else if i == SPECSEL_INT_DIV {
        "//"@
    } else if i == SPECSEL_MOD {
        "\\\\"@
    } else if i == SPECSEL_LT {
        "<"@
    } else if i == SPECSEL_GT {
        ">"@
    } else if i == SPECSEL_LE {
        "<="@
    } else if i == SPECSEL_GE {
        ">="@
    } else if i == SPECSEL_EQ {
        "="@
    } else if i == SPECSEL_IDENTICAL {
        "=="@
    } else if i == SPECSEL_AT {
        "at:"@
    } else if i == SPECSEL_AT_PUT {
        "at:put:"@
    } else if i == SPECSEL_SIZE {
        "size"@
    } else if i == SPECSEL_CLASS {
        "class"@
    } else {
        "not"@
    }
}

/// The name of a specialized selector.
pub fn selector_name(i: usize) -> (s: &'static str)
    requires
        i < SPECSEL_COUNT,
    ensures
        s@ == selector_text(i as int),
        is_ascii(s),
        1 <= s@.len() <= 8,
{
    let s: &'static str = if i == SPECSEL_PLUS {
        "+"
    } else if i == SPECSEL_MINUS {
        "-"
    } else if i == SPECSEL_TIMES {
        "*"
    } else if i == SPECSEL_INT_DIV {
        "//"
    } else if i == SPECSEL_MOD {
        "\\\\"
    } else if i == SPECSEL_LT {
        "<"
    } else if i == SPECSEL_GT {
        ">"
    } else if i == SPECSEL_LE {
        "<="
    } else if i == SPECSEL_GE {
        ">="
    } else if i == SPECSEL_EQ {
        "="
    } else if i == SPECSEL_IDENTICAL {
        "=="
    } else if i == SPECSEL_AT {
        "at:"
    } else if i == SPECSEL_AT_PUT {
        "at:put:"
    } else if i == SPECSEL_SIZE {
        "size"
    } else if i == SPECSEL_CLASS {
        "class"
    } else {
        "not"
    };
    proof {
        reveal_strlit("+");
        reveal_strlit("-");
        reveal_strlit("*");
        reveal_strlit("//");
        reveal_strlit("\\\\");
        reveal_strlit("<");
        reveal_strlit(">");
        reveal_strlit("<=");
        reveal_strlit(">=");
        reveal_strlit("=");
        reveal_strlit("==");
        reveal_strlit("at:");
        reveal_strlit("at:put:");
        reveal_strlit("size");
        reveal_strlit("class");
        reveal_strlit("not");
    }
    s
}

impl HeapView {
    /// The class objects of the reserved indexes from `idx` on.
    pub open spec fn boot_classes(self, idx: int, table: Seq<Value>, nil: Value) -> Option<
        (HeapView, Seq<Value>),
    >
        decreases 32 - idx,
    {
        if idx > CLASS_LINKED_LIST {
            Some((self, table))
        } else {
            match self.class_made(
                idx as u32,
                boot_format(idx as u32),
                boot_slots(idx as u32),
                nil,
            ) {
                None => None,
                Some((h, c)) => h.boot_classes(idx + 1, table.update(idx, c), nil),
            }
        }
    }

    /// The reserved classes from `idx` on put under Object.
    pub open spec fn boot_supers(self, idx: int, table: Seq<Value>) -> HeapView
        decreases 32 - idx,
    {
        if idx > CLASS_LINKED_LIST {
            self
        } else {
            self.set_slot(
                table[idx].addr(),
                BEHAVIOR_SUPERCLASS as int,
                table[CLASS_OBJECT as int],
            ).boot_supers(idx + 1, table)
        }
    }

    /// Empty run queues for the priorities from `i` on.
    pub open spec fn boot_queues(self, queues: Value, i: int, nil: Value) -> Option<HeapView>
        decreases 8 - i,
    {
        if i >= NUM_PRIORITIES {
            Some(self)
        } else {
            match self.alloc_old(
                CLASS_LINKED_LIST,
                FMT_FIXED,
                LIST_NUM_VM_SLOTS as int,
                Some(nil.0),
                false,
            ) {
                None => None,
                Some((h, q)) => h.set_slot(queues.addr(), i, Value(q as u64)).boot_queues(
                    queues,
                    i + 1,
                    nil,
                ),
            }
        }
    }
}

impl VmView {
    /// nil, true and false, the first objects of old space, and the tables
    /// filled with nil.
    pub open spec fn boot_constants(self) -> Option<VmView> {
        match self.heap.alloc_old(CLASS_UNDEFINED_OBJECT, FMT_FIXED, 0, Some(0), false) {
            None => None,
            Some((h1, a)) => {
                let nil = Value(a as u64);
                match h1.alloc_old(CLASS_TRUE, FMT_FIXED, 0, Some(nil.0), false) {
                    None => None,
                    Some((h2, t)) => match h2.alloc_old(
                        CLASS_FALSE,
                        FMT_FIXED,
                        0,
                        Some(nil.0),
                        false,
                    ) {
                        None => None,
                        Some((h3, f)) => Some(
                            VmView {
                                heap: h3,
                                specials: all_of(nil, SPECIAL_OBJECTS_COUNT as nat).update(
                                    SPECIAL_TRUE as int,
                                    Value(t as u64),
                                ).update(SPECIAL_FALSE as int, Value(f as u64)),
                                class_table: all_of(nil, FIRST_UNRESERVED_CLASS_INDEX as nat),
                                active: nil,
                                ..self
                            },
                        ),
                    },
                }
            },
        }
    }

    /// The reserved classes: all under Object, but Symbol under ByteString
    /// under String.
    pub open spec fn boot_class_objects(self) -> Option<VmView> {
        match self.heap.boot_classes(CLASS_OBJECT as int, self.class_table, self.nil()) {
            None => None,
            Some((h, table)) => {
                let string = table[CLASS_STRING as int];
                let bytestring = table[CLASS_BYTESTRING as int];
                let symbol = table[CLASS_SYMBOL as int];
                Some(
                    VmView {
                        heap: h.boot_supers(CLASS_BEHAVIOR as int, table).set_slot(
                            bytestring.addr(),
                            BEHAVIOR_SUPERCLASS as int,
                            string,
                        ).set_slot(symbol.addr(), BEHAVIOR_SUPERCLASS as int, bytestring),
                        class_table: table,
                        ..self
                    },
                )
            },
        }
    }

    /// The specialized selectors from `i` on, interned into an array.
    pub open spec fn boot_selectors(self, sels: Value, i: int) -> Option<VmView>
        decreases 16 - i,
    {
        if i >= SPECSEL_COUNT {
            Some(self)
        } else {
            match self.interned(vstd::utf8::encode_utf8(selector_text(i))) {
                None => None,
                Some((v, sym)) => v.on_heap(
                    v.heap.set_slot(sels.addr(), i, sym),
                ).boot_selectors(sels, i + 1),
            }
        }
    }

    /// The selectors the machine itself sends.
    pub open spec fn boot_specials(self) -> Option<VmView> {
        match self.interned(vstd::utf8::encode_utf8("doesNotUnderstand:"@)) {
            None => None,
            Some((v1, dnu)) => match v1.interned(vstd::utf8::encode_utf8("mustBeBoolean"@)) {
                None => None,
                Some((v2, mbb)) => match v2.heap.alloc_old(
                    CLASS_ARRAY,
                    FMT_PTRS,
                    SPECSEL_COUNT as int,
                    Some(self.nil().0),
                    false,
                ) {
                    None => None,
                    Some((h, sels)) => VmView {
                        heap: h,
                        specials: v2.specials.update(
                            SPECIAL_SEL_DOES_NOT_UNDERSTAND as int,
                            dnu,
                        ).update(SPECIAL_SEL_MUST_BE_BOOLEAN as int, mbb).update(
                            SPECIAL_SPECIALIZED_SELECTORS as int,
                            Value(sels as u64),
                        ),
                        ..v2
                    }.boot_selectors(Value(sels as u64), 0),
                },
            },
        }
    }

    /// The scheduler with empty run queues, and the machine's semaphores.
    pub open spec fn boot_scheduler(self) -> Option<VmView> {
        let nil = self.nil();
        match self.heap.alloc_old(
            CLASS_ARRAY,
            FMT_PTRS,
            NUM_PRIORITIES as int,
            Some(nil.0),
            false,
        ) {
            None => None,
            Some((h1, queues)) => match h1.boot_queues(Value(queues as u64), 0, nil) {
                None => None,
                Some(h2) => match h2.alloc_old(
                    CLASS_PROCESSOR_SCHEDULER,
                    FMT_FIXED,
                    SCHEDULER_NUM_VM_SLOTS as int,
                    Some(nil.0),
                    false,
                ) {
                    None => None,
                    Some((h3, sched)) => match h3.set_slot(
                        sched,
                        SCHEDULER_QUEUES as int,
                        Value(queues as u64),
                    ).semaphore_made(nil) {
                        None => None,
                        Some((h4, low)) => match h4.semaphore_made(nil) {
                            None => None,
                            Some((h5, timer)) => Some(
                                VmView {
                                    heap: h5,
                                    specials: self.specials.update(
                                        SPECIAL_PROCESSOR as int,
                                        Value(sched as u64),
                                    ).update(SPECIAL_LOW_SPACE_SEMAPHORE as int, low).update(
                                        SPECIAL_TIMER_SEMAPHORE as int,
                                        timer,
                                    ),
                                    ..self
                                },
                            ),
                        },
                    },
                },
            },
        }
    }

    /// The machine after the bootstrap; `None` where old space is too small.
    pub open spec fn booted(self) -> Option<VmView> {
        match self.boot_constants() {
            None => None,
            Some(v1) => match v1.boot_class_objects() {
                None => None,
                Some(v2) => match v2.boot_specials() {
                    None => None,
                    Some(v3) => v3.boot_scheduler(),
                },
            },
        }
    }

    /// A machine with an empty heap and nothing in it.
    pub open spec fn blank(config: VmConfig) -> VmView {
        VmView {
            heap: HeapView::fresh(config.heap),
            class_table: Seq::empty(),
            specials: all_of(Value(0), SPECIAL_OBJECTS_COUNT as nat),
            symbol_names: Seq::empty(),
            symbols: Seq::empty(),
            temp_roots: Seq::empty(),
            active: Value(0),
            sites: Seq::empty(),
            cache: crate::vm::no_entries(),
            hash_counter: 0,
            safepoint: SafepointShared { armed: false, sample_due: false },
            epoch: 0,
            max_stack_bytes: config.max_stack_bytes,
            capture: Seq::empty(),
            scavenges: 0,
            compacts: 0,
            stack_grows: 0,
            tenure: TENURE_AGE,
            files: Seq::empty(),
            now_ns: 0,
            timer_times: Seq::empty(),
            timer_sems: Seq::empty(),
            snap: None,
            sends_seen: 0,
            snap_len: None,
            ctr: CountersView::zero(false),
            prof: ProfilerView::idle(),
            jit: None,
            host: crate::host_ui::HostView::initial(),
            request: None,
        }
    }
}

/// `n` copies of a value.
pub open spec fn all_of(v: Value, n: nat) -> Seq<Value> {
    Seq::new(n, |i: int| v)
}

/// Words of old space that the bootstrap takes.
pub const BOOT_WORDS: usize = 413;

fn copies(v: Value, n: usize) -> (r: Vec<Value>)
    ensures
        r@ == all_of(v, n as nat),
{
    let mut r: Vec<Value> = Vec::new();
    let mut i: usize = 0;
    while i < n
        invariant
            i <= n,
            r@.len() == i,
            forall|j: int| 0 <= j < i ==> r@[j] == v,
        decreases n - i,
    {
        r.push(v);
        i = i + 1;
    }
    assert(r@ =~= all_of(v, n as nat));
    r
}

/// Every reserved class of the table can be written.
spec fn classes_ready(h: HeapView, table: Seq<Value>, below: int) -> bool {
    &&& table.len() == FIRST_UNRESERVED_CLASS_INDEX
    &&& forall|i: int|
        1 <= i < below ==> h.plausible((#[trigger] table[i]).addr()) && table[i].addr() + 40
            <= h.limit_of(table[i].addr())
}

impl Heap {
    fn boot_classes(&mut self, table: &mut Vec<Value>, nil: Value) -> (ok: bool)
        requires
            old(self).wf(),
            old(self)@.old.fits(310),
            old(table)@.len() == FIRST_UNRESERVED_CLASS_INDEX,
        ensures
            ok,
            final(self).wf(),
            final(self)@.layout() == old(self)@.layout(),
            final(self)@.old.alloc == old(self)@.old.alloc + 310,
            Some((final(self)@, final(table)@)) == old(self)@.boot_classes(1, old(table)@, nil),
            classes_ready(final(self)@, final(table)@, 32),
    {
        let mut idx: u32 = CLASS_OBJECT;
        while idx <= CLASS_LINKED_LIST
            invariant
                1 <= idx <= 32,
                self.wf(),
                old(self)@.old.fits(310),
                self@.layout() == old(self)@.layout(),
                self@.old.mem.len() == old(self)@.old.mem.len(),
                self@.old.alloc == old(self)@.old.alloc + 10 * (idx - 1),
                classes_ready(self@, table@, idx as int),
                old(self)@.boot_classes(1, old(table)@, nil) == self@.boot_classes(
                    idx as int,
                    table@,
                    nil,
                ),
            decreases 32 - idx,
        {
            let (format, nslots) = boot_shape(idx);
            match self.make_class(idx, format, nslots, nil) {
                Some(c) => {
                    table.set(idx as usize, c);
                },
                None => {
                    return false;
                },
            }
            idx = idx + 1;
        }
        true
    }

    fn boot_supers(&mut self, table: &Vec<Value>)
        requires
            old(self).wf(),
            classes_ready(old(self)@, table@, 32),
        ensures
            final(self).wf(),
            final(self)@.layout() == old(self)@.layout(),
            final(self)@.old.alloc == old(self)@.old.alloc,
            final(self)@ == old(self)@.boot_supers(2, table@),
            classes_ready(final(self)@, table@, 32),
    {
        let object = table[CLASS_OBJECT as usize];
        let mut i: u32 = CLASS_BEHAVIOR;
        while i <= CLASS_LINKED_LIST
            invariant
                2 <= i <= 32,
                self.wf(),
                object == table@[1],
                self@.layout() == old(self)@.layout(),
                self@.old.alloc == old(self)@.old.alloc,
                classes_ready(self@, table@, 32),
                old(self)@.boot_supers(2, table@) == self@.boot_supers(i as int, table@),
            decreases 32 - i,
        {
            proof {
                crate::objects::lemma_write_frame(self@, table@[i as int].addr() + 8, object.0);
            }
            self.poke(table[i as usize], BEHAVIOR_SUPERCLASS, object);
            i = i + 1;
        }
    }

    fn boot_strings(&mut self, table: &Vec<Value>)
        requires
            old(self).wf(),
            classes_ready(old(self)@, table@, 32),
        ensures
            final(self).wf(),
            final(self)@.layout() == old(self)@.layout(),
            final(self)@.old.alloc == old(self)@.old.alloc,
            final(self)@ == old(self)@.set_slot(
                table@[CLASS_BYTESTRING as int].addr(),
                BEHAVIOR_SUPERCLASS as int,
                table@[CLASS_STRING as int],
            ).set_slot(
                table@[CLASS_SYMBOL as int].addr(),
                BEHAVIOR_SUPERCLASS as int,
                table@[CLASS_BYTESTRING as int],
            ),
    {
        let string = table[CLASS_STRING as usize];
        let bytestring = table[CLASS_BYTESTRING as usize];
        let symbol = table[CLASS_SYMBOL as usize];
        proof {
            crate::objects::lemma_write_frame(self@, bytestring.addr() + 8, string.0);
            crate::objects::lemma_write_frame(
                self@.write(bytestring.addr() + 8, string.0),
                symbol.addr() + 8,
                bytestring.0,
            );
        }
        self.poke(bytestring, BEHAVIOR_SUPERCLASS, string);
        self.poke(symbol, BEHAVIOR_SUPERCLASS, bytestring);
    }
}

impl Vm {
    fn boot_constants(&mut self) -> (ok: bool)
        requires
            old(self).wf(),
            old(self)@.heap.old.fits(3),
        ensures
            ok,
            final(self).wf(),
            Some(final(self)@) == old(self)@.boot_constants(),
            final(self)@.heap.layout() == old(self)@.heap.layout(),
            final(self)@.heap.old.alloc == old(self)@.heap.old.alloc + 3,
    {
        let nil = match self.heap.make_old(CLASS_UNDEFINED_OBJECT, FMT_FIXED, 0, Value(0)) {
            Some(v) => v,
            None => {
                return false;
            },
        };
        let t = match self.heap.make_old(CLASS_TRUE, FMT_FIXED, 0, nil) {
            Some(v) => v,
            None => {
                return false;
            },
        };
        let f = match self.heap.make_old(CLASS_FALSE, FMT_FIXED, 0, nil) {
            Some(v) => v,
            None => {
                return false;
            },
        };
        self.specials = copies(nil, SPECIAL_OBJECTS_COUNT);
        self.specials.set(SPECIAL_TRUE, t);
        self.specials.set(SPECIAL_FALSE, f);
        self.class_table = copies(nil, FIRST_UNRESERVED_CLASS_INDEX as usize);
        self.active_process = nil;
        true
    }

    fn boot_class_objects(&mut self) -> (ok: bool)
        requires
            old(self).wf(),
            old(self)@.heap.old.fits(310),
            old(self)@.class_table.len() == FIRST_UNRESERVED_CLASS_INDEX,
        ensures
            ok,
            final(self).wf(),
            Some(final(self)@) == old(self)@.boot_class_objects(),
            final(self)@.heap.layout() == old(self)@.heap.layout(),
            final(self)@.heap.old.alloc == old(self)@.heap.old.alloc + 310,
    {
        let nil = self.nil();
        let ghost v0 = self@;
        let mut table = crate::gc::copy_range(&self.class_table, 0, self.class_table.len());
        assert(table@ =~= v0.class_table);
        if !self.heap.boot_classes(&mut table, nil) {
            return false;
        }
        self.heap.boot_supers(&table);
        self.heap.boot_strings(&table);
        self.class_table = table;
        true
    }

    fn boot_selectors(&mut self, sels: Value) -> (ok: bool)
        requires
            old(self).wf(),
            old(self)@.heap.old.fits(32),
            old(self)@.heap.plausible(sels.addr()),
            sels.addr() + 8 + 8 * SPECSEL_COUNT <= old(self)@.heap.limit_of(sels.addr()),
        ensures
            ok,
            final(self).wf(),
            Some(final(self)@) == old(self)@.boot_selectors(sels, 0),
            final(self)@.heap.layout() == old(self)@.heap.layout(),
            final(self)@.heap.old.alloc <= old(self)@.heap.old.alloc + 32,
    {
        let mut i: usize = 0;
        while i < SPECSEL_COUNT
            invariant
                i <= SPECSEL_COUNT,
                self.wf(),
                old(self)@.heap.old.fits(32),
                old(self)@.heap.plausible(sels.addr()),
                sels.addr() + 8 + 8 * SPECSEL_COUNT <= old(self)@.heap.limit_of(sels.addr()),
                self@.heap.layout() == old(self)@.heap.layout(),
                self@.heap.old.mem.len() == old(self)@.heap.old.mem.len(),
                self@.heap.old.alloc <= old(self)@.heap.old.alloc + 2 * i,
                old(self)@.boot_selectors(sels, 0) == self@.boot_selectors(sels, i as int),
            decreases SPECSEL_COUNT - i,
        {
            broadcast use vstd::string::is_ascii_spec_bytes;

            let name = selector_name(i);
            assert(name.spec_bytes().len() == name@.len());
            let sym = match self.try_intern(name.as_bytes()) {
                Some(v) => v,
                None => {
                    return false;
                },
            };
            proof {
                crate::objects::lemma_write_frame(self@.heap, sels.addr() + 8 + 8 * i, sym.0);
            }
            self.heap.poke(sels, i, sym);
            i = i + 1;
        }
        true
    }

    fn boot_specials(&mut self) -> (ok: bool)
        requires
            old(self).wf(),
            old(self)@.heap.old.fits(56),
        ensures
            ok,
            final(self).wf(),
            Some(final(self)@) == old(self)@.boot_specials(),
            final(self)@.heap.layout() == old(self)@.heap.layout(),
            final(self)@.heap.old.alloc <= old(self)@.heap.old.alloc + 56,
    {
        broadcast use vstd::string::is_ascii_spec_bytes;

        let nil = self.nil();
        proof {
            reveal_strlit("doesNotUnderstand:");
            reveal_strlit("mustBeBoolean");
            assert(is_ascii("doesNotUnderstand:"));
            assert(is_ascii("mustBeBoolean"));
            assert("doesNotUnderstand:".spec_bytes().len() == 18);
            assert("mustBeBoolean".spec_bytes().len() == 13);
        }
        let dnu = match self.try_intern("doesNotUnderstand:".as_bytes()) {
            Some(v) => v,
            None => {
                return false;
            },
        };
        let mbb = match self.try_intern("mustBeBoolean".as_bytes()) {
            Some(v) => v,
            None => {
                return false;
            },
        };
        let sels = match self.heap.make_old(CLASS_ARRAY, FMT_PTRS, SPECSEL_COUNT, nil) {
            Some(v) => v,
            None => {
                return false;
            },
        };
        self.specials.set(SPECIAL_SEL_DOES_NOT_UNDERSTAND, dnu);
        self.specials.set(SPECIAL_SEL_MUST_BE_BOOLEAN, mbb);
        self.specials.set(SPECIAL_SPECIALIZED_SELECTORS, sels);
        self.boot_selectors(sels)
    }

    #[verifier::loop_isolation(false)]
    #[verifier::rlimit(60)]
    fn boot_scheduler(&mut self) -> (ok: bool)
        requires
            old(self).wf(),
            old(self)@.heap.old.fits(44),
        ensures
            ok,
            final(self).wf(),
            Some(final(self)@) == old(self)@.boot_scheduler(),
    {
        let nil = self.nil();
        let ghost v0 = self@;
        let queues = match self.heap.make_old(CLASS_ARRAY, FMT_PTRS, NUM_PRIORITIES, nil) {
            Some(v) => v,
            None => {
                return false;
            },
        };
        let ghost h1 = self@.heap;
        let mut i: usize = 0;
        while i < NUM_PRIORITIES
            invariant
                i <= NUM_PRIORITIES,
                self.wf(),
                self@ == v0.on_heap(self@.heap),
                self@.heap.layout() == v0.heap.layout(),
                self@.heap.old.alloc == v0.heap.old.alloc + 9 + 3 * i,
                h1.boot_queues(queues, 0, nil) == self@.heap.boot_queues(queues, i as int, nil),
            decreases NUM_PRIORITIES - i,
        {
            let q = match self.heap.make_old(CLASS_LINKED_LIST, FMT_FIXED, LIST_NUM_VM_SLOTS, nil) {
                Some(v) => v,
                None => {
                    return false;
                },
            };
            proof {
                crate::objects::lemma_write_frame(self@.heap, queues.addr() + 8 + 8 * i, q.0);
            }
            self.heap.poke(queues, i, q);
            i = i + 1;
        }
        let sched = match self.heap.make_old(
            CLASS_PROCESSOR_SCHEDULER,
            FMT_FIXED,
            SCHEDULER_NUM_VM_SLOTS,
            nil,
        ) {
            Some(v) => v,
            None => {
                return false;
            },
        };
        proof {
            crate::objects::lemma_write_frame(self@.heap, sched.addr() + 8, queues.0);
        }
        self.heap.poke(sched, SCHEDULER_QUEUES, queues);
        let low = match self.heap.make_semaphore(nil) {
            Some(v) => v,
            None => {
                return false;
            },
        };
        let timer = match self.heap.make_semaphore(nil) {
            Some(v) => v,
            None => {
                return false;
            },
        };
        self.specials.set(SPECIAL_PROCESSOR, sched);
        self.specials.set(SPECIAL_LOW_SPACE_SEMAPHORE, low);
        self.specials.set(SPECIAL_TIMER_SEMAPHORE, timer);
        true
    }

    /// Make nil, true and false, the class objects of the reserved indexes,
    /// and the special objects.
    #[verifier::spinoff_prover]
    #[verifier::rlimit(60)]
    fn bootstrap(&mut self) -> (ok: bool)
        requires
            old(self).wf(),
            old(self)@.heap.old.fits(BOOT_WORDS as int),
        ensures
            ok,
            final(self).wf(),
            Some(final(self)@) == old(self)@.booted(),
    {
        self.boot_constants() && self.boot_class_objects() && self.boot_specials()
            && self.boot_scheduler()
    }

    /// A bootstrapped machine.
    pub fn bare(config: VmConfig) -> (vm: Vm)
        requires
            config.heap.addressable(),
            config.heap.old_bytes / 8 >= BOOT_WORDS,
        ensures
            vm.wf(),
            Some(vm@) == VmView::blank(config).booted(),
    {
        let heap = Heap::new(config.heap);
        let lookup_cache: Vec<LookupEntry> = vec![LookupEntry {
            class_index: 0,
            selector: Value(0),
            method: Value(0),
        };LOOKUP_CACHE_SIZE];
        assert(lookup_cache@ =~= crate::vm::no_entries());
        let mut vm = Vm {
            heap,
            class_table: Vec::new(),
            specials: copies(Value(0), SPECIAL_OBJECTS_COUNT),
            symbol_names: Vec::new(),
            symbols: Vec::new(),
            temp_roots: Vec::new(),
            active_process: Value(0),
            site_registry: Vec::new(),
            lookup_cache,
            hash_counter: 0,
            safepoint: SafepointShared::new(),
            gc_epoch: 0,
            max_stack_bytes: config.max_stack_bytes,
            stdout_capture: Vec::new(),
            scavenge_count: 0,
            compact_count: 0,
            stack_grow_count: 0,
            tenure_threshold: TENURE_AGE,
            files: Vec::new(),
            now_ns: 0,
            timer_times: Vec::new(),
            timer_sems: Vec::new(),
            snapshot_after_sends: None,
            sends_seen: 0,
            snapshot_fired_at_capture_len: None,
            counters: Counters::new(),
            profiler: Profiler::default(),
            jit: None,
            host: HostUi::new(),
            request: None,
        };
        assert(vm@.symbol_names =~= Seq::empty());
        assert(vm@ == VmView::blank(config));
        let _ = vm.bootstrap();
        vm
    }

    /// A bare machine with a small heap.
    pub fn bare_test() -> (vm: Vm)
        ensures
            vm.wf(),
            Some(vm@) == VmView::blank(
                VmConfig {
                    heap: HeapConfig {
                        young_bytes: 2097152,
                        old_bytes: 8388608,
                        large_object_bytes: LARGE_OBJECT_BYTES,
                    },
                    max_stack_bytes: DEFAULT_MAX_STACK_BYTES,
                },
            ).booted(),
    {
        Vm::bare(
            VmConfig {
                heap: HeapConfig {
                    young_bytes: 2097152,
                    old_bytes: 8388608,
                    large_object_bytes: LARGE_OBJECT_BYTES,
                },
                max_stack_bytes: DEFAULT_MAX_STACK_BYTES,
            },
        )
    }
}

} // verus!
