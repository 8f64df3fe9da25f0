//! Image snapshots: a header and one contiguous dump of old space.
//!
//! Object headers hold class indexes, not pointers, so loading is one pass
//! over the object slots that adds the distance between the saved base and
//! the new one. The same pass finds the send-site arrays and the symbols.

use crate::counters::Counters;
use crate::heap::{get_u64, Heap, HeapConfig, HeapView, SpaceView};
use crate::host_ui::HostUi;
use crate::profile::{Profiler, SafepointShared};
use crate::value::Value;
use crate::vm::{fatal, Fault, LookupEntry, Vm, VmConfig, VmError, VmView};
use crate::treaty::{
    CLASS_ARRAY, CLASS_COMPILEDBLOCK, CLASS_COMPILEDMETHOD, CLASS_SYMBOL, FMT_PTRS,
    IMG_ACTIVE_PROCESS_OFFSET, IMG_CLASS_LIST_OFFSET, IMG_HEADER_SIZE, IMG_MAGIC,
    IMG_MAGIC_OFFSET, IMG_OLD_SPACE_SIZE_OFFSET, IMG_SAVED_BASE_OFFSET,
    IMG_SPECIAL_OBJECTS_OFFSET, IMG_VERSION_OFFSET, LOOKUP_CACHE_SIZE, METHOD_SEND_SITES,
    SPECIAL_CLASS_LIST, SPECIAL_OBJECTS_COUNT, TENURE_AGE,
};
use vstd::prelude::*;

verus! {

// ---------------------------------------------------------------------------
// Bytes
// ---------------------------------------------------------------------------
/// The low `n` bytes of a word, low byte first.
pub open spec fn le_bytes(w: u64, n: nat) -> Seq<u8> {
    Seq::new(n, |k: int| crate::heap::byte_of(w, k))
}

/// The first `n` words of a memory as bytes.
pub open spec fn dumped(mem: Seq<u64>, n: nat) -> Seq<u8> {
    Seq::new(8 * n, |k: int| crate::heap::byte_of(mem[k / 8], k % 8))
}

fn put_u32(out: &mut Vec<u8>, v: u32)
    ensures
        final(out)@ == old(out)@ + le_bytes(v as u64, 4),
{
    put_low(out, v as u64, 4);
}

fn put_u64(out: &mut Vec<u8>, v: u64)
    ensures
        final(out)@ == old(out)@ + le_bytes(v, 8),
{
    put_low(out, v, 8);
}

fn put_low(out: &mut Vec<u8>, v: u64, n: u64)
    requires
        n <= 8,
    ensures
        final(out)@ == old(out)@ + le_bytes(v, n as nat),
{
    let mut k: u64 = 0;
    while k < n
        invariant
            k <= n <= 8,
            out@ == old(out)@ + le_bytes(v, k as nat),
        decreases n - k,
    {
        out.push(((v >> (8 * k)) & 0xff) as u8);
        k = k + 1;
        assert(out@ =~= old(out)@ + le_bytes(v, k as nat));
    }
    assert(out@ =~= old(out)@ + le_bytes(v, n as nat));
}

/// The 32-bit number whose four bytes start at `off`, low byte first.
pub open spec fn le_u32(data: Seq<u8>, off: int) -> u32 {
    (data[off] as u32) | ((data[off + 1] as u32) << 8u32) | ((data[off + 2] as u32) << 16u32) | ((
    data[off + 3] as u32) << 24u32)
}

fn get_u32(data: &[u8], off: usize) -> (w: u32)
    requires
        off + 4 <= data@.len(),
    ensures
        w == le_u32(data@, off as int),
{
    (data[off] as u32) | ((data[off + 1] as u32) << 8u32) | ((data[off + 2] as u32) << 16u32) | ((
    data[off + 3] as u32) << 24u32)
}

/// A word written as bytes reads back.
pub proof fn law_word_round_trip(data: Seq<u8>, off: int, w: u64)
    requires
        0 <= off,
        off + 8 <= data.len(),
        data.subrange(off, off + 8) == le_bytes(w, 8),
    ensures
        crate::heap::le_word(data, off) == w,
{
    assert forall|k: int| 0 <= k < 8 implies #[trigger] data[off + k] == crate::heap::byte_of(
        w,
        k,
    ) by {
        assert(data.subrange(off, off + 8)[k] == data[off + k]);
    }
    let b0 = data[off + 0];
    let b1 = data[off + 1];
    let b2 = data[off + 2];
    let b3 = data[off + 3];
    let b4 = data[off + 4];
    let b5 = data[off + 5];
    let b6 = data[off + 6];
    let b7 = data[off + 7];
    assert(((w >> 0u64) & 0xff) as u8 == b0);
    assert(((((w >> 0u64) & 0xff) as u8) as u64) | (((((w >> 8u64) & 0xff) as u8) as u64) << 8u64)
        | (((((w >> 16u64) & 0xff) as u8) as u64) << 16u64) | (((((w >> 24u64) & 0xff) as u8)
        as u64) << 24u64) | (((((w >> 32u64) & 0xff) as u8) as u64) << 32u64) | (((((w >> 40u64)
        & 0xff) as u8) as u64) << 40u64) | (((((w >> 48u64) & 0xff) as u8) as u64) << 48u64) | ((((
    (w >> 56u64) & 0xff) as u8) as u64) << 56u64) == w) by (bit_vector);
}

// ---------------------------------------------------------------------------
// Writing
// ---------------------------------------------------------------------------
impl HeapView {
    /// The image of old space, with where the special objects, the class
    /// list and the active process are in it.
    pub open spec fn image(self, specials: int, classes: int, active: int) -> Seq<u8> {
        let base = self.old.base;
        le_bytes(IMG_MAGIC as u64, 4) + le_bytes(1, 4) + le_bytes(0, 8) + le_bytes(
            base as u64,
            8,
        ) + le_bytes((8 * self.old.alloc) as u64, 8) + le_bytes((specials - base) as u64, 8)
            + le_bytes((classes - base) as u64, 8) + le_bytes((active - base) as u64, 8)
            + le_bytes(0, 8) + dumped(self.old.mem, self.old.alloc as nat)
    }
}

impl VmView {
    /// The machine after its tables were written into old space for a
    /// snapshot, and the image. What was written stays when there is no
    /// image after all.
    #[verifier::opaque]
    pub open spec fn imaged(self) -> (VmView, Result<Seq<u8>, Fault>) {
        let nil = self.nil();
        let n = self.class_table.len() as int;
        if self.heap.from.alloc != 0 {
            (self, Err(Fault::Fatal("young space must be empty for a snapshot"@, self)))
        } else {
            match self.heap.alloc_old(CLASS_ARRAY, FMT_PTRS, n, Some(nil.0), false) {
                None => (self, Err(Fault::OutOfMemory(self))),
                Some((h1, cl)) => {
                    let h2 = h1.fill_from(cl, self.class_table, 0);
                    let specials = self.specials.update(
                        SPECIAL_CLASS_LIST as int,
                        Value(cl as u64),
                    );
                    match h2.alloc_old(
                        CLASS_ARRAY,
                        FMT_PTRS,
                        SPECIAL_OBJECTS_COUNT as int,
                        Some(nil.0),
                        false,
                    ) {
                        None => (
                            VmView { heap: h2, specials, ..self },
                            Err(Fault::OutOfMemory(VmView { heap: h2, specials, ..self })),
                        ),
                        Some((h3, sp)) => {
                            let heap = h3.fill_from(
                                sp,
                                specials.take(SPECIAL_OBJECTS_COUNT as int),
                                0,
                            );
                            (
                                VmView { heap, specials, ..self },
                                if !self.active.tagged_ptr() || !heap.tenured(self.active.addr()) {
                                    Err(
                                        Fault::Fatal(
                                            "active process must live in old space"@,
                                            VmView { heap, specials, ..self },
                                        ),
                                    )
                                } else {
                                    Ok(heap.image(sp, cl, self.active.addr()))
                                },
                            )
                        },
                    }
                },
            }
        }
    }
}

/// Filling slots leaves everything but the words of the spaces as it is.
pub proof fn lemma_fill_from_frame(h: HeapView, o: int, list: Seq<Value>, i: int)
    ensures
        h.fill_from(o, list, i).old.alloc == h.old.alloc,
        h.fill_from(o, list, i).old.mem.len() == h.old.mem.len(),
        h.fill_from(o, list, i).from.alloc == h.from.alloc,
        h.fill_from(o, list, i).layout() == h.layout(),
    decreases list.len() - i,
{
    if 0 <= i && i < list.len() {
        crate::objects::lemma_write_frame(h, o + 8 + 8 * i, list[i].0);
        lemma_fill_from_frame(h.set_slot(o, i, list[i]), o, list, i + 1);
    }
}

/// What making an image answers and leaves behind.
pub open spec fn image_result(
    r: Result<Vec<u8>, VmError>,
    after: VmView,
    planned: (VmView, Result<Seq<u8>, Fault>),
) -> bool {
    after == planned.0 && match planned.1 {
        Ok(data) => r is Ok && r->Ok_0@ == data,
        Err(f) => r is Err && r->Err_0.tells(f, after),
    }
}

impl Heap {
    /// The image of old space.
    fn dump(&self, specials: u64, classes: u64, active: u64) -> (out: Vec<u8>)
        requires
            self.wf(),
            self@.tenured(specials as int),
            self@.tenured(classes as int),
            self@.tenured(active as int),
        ensures
            out@ == self@.image(specials as int, classes as int, active as int),
    {
        let base: u64 = self.old.base() as u64;
        let mut out: Vec<u8> = Vec::new();
        put_u32(&mut out, IMG_MAGIC);
        put_u32(&mut out, 1);
        put_u64(&mut out, 0);
        put_u64(&mut out, base);
        put_u64(&mut out, self.old.used_bytes() as u64);
        put_u64(&mut out, specials - base);
        put_u64(&mut out, classes - base);
        put_u64(&mut out, active - base);
        put_u64(&mut out, 0);
        let ghost head = out@;
        let n: usize = self.old.used_bytes() / 8;
        let mut j: usize = 0;
        while j < n
            invariant
                j <= n,
                n == self@.old.alloc,
                self.wf(),
                base == self@.old.base,
                out@ == head + dumped(self@.old.mem, j as nat),
            decreases n - j,
        {
            let w: u64 = self.old.get(base + 8 * j as u64);
            put_u64(&mut out, w);
            j = j + 1;
            assert(out@ =~= head + dumped(self@.old.mem, j as nat));
        }
        let ghost im = self@.image(specials as int, classes as int, active as int);
        assert(out@ =~= im);
        out
    }
}

impl Vm {
    /// The image of the machine. Young space must be empty and the active
    /// process's registers saved: the image is old space alone, and the
    /// process is in it as suspended.
    pub fn write_image(&mut self) -> (r: Result<Vec<u8>, VmError>)
        requires
            old(self).wf(),
        ensures
            final(self).wf(),
            image_result(r, final(self)@, old(self)@.imaged()),
            final(self)@.temp_roots == old(self)@.temp_roots,
    {
        reveal(VmView::imaged);
        let nil = self.nil();
        if self.heap.young_from.used_bytes() != 0 {
            return fatal("young space must be empty for a snapshot");
        }
        let n: usize = self.class_table.len();
        let cl = match self.heap.make_old(CLASS_ARRAY, FMT_PTRS, n, nil) {
            Some(v) => v,
            None => {
                return Err(VmError::OutOfMemory);
            },
        };
        proof {
            lemma_fill_from_frame(self@.heap, cl.addr(), self@.class_table, 0);
        }
        self.heap.fill_from(cl, self.class_table.as_slice());
        self.specials.set(SPECIAL_CLASS_LIST, cl);
        let sp = match self.heap.make_old(CLASS_ARRAY, FMT_PTRS, SPECIAL_OBJECTS_COUNT, nil) {
            Some(v) => v,
            None => {
                return Err(VmError::OutOfMemory);
            },
        };
        self.heap.fill_from(
            sp,
            vstd::slice::slice_subrange(self.specials.as_slice(), 0, SPECIAL_OBJECTS_COUNT),
        );
        let active = self.active_process;
        if !active.is_ptr() || !self.heap.tenured(active) {
            return fatal("active process must live in old space");
        }
        Ok(self.heap.dump(sp.0, cl.0, active.0))
    }
}

// ---------------------------------------------------------------------------
// Loading
// ---------------------------------------------------------------------------
/// A pass over the objects of a loaded image: the heap, the send-site arrays
/// and the symbols found so far.
#[verifier::ext_equal]
pub struct LoadView {
    pub heap: HeapView,
    pub sites: Seq<Value>,
    pub symbol_names: Seq<Seq<u8>>,
    pub symbols: Seq<Value>,
}

/// A value moved by the distance between two bases; only pointers move.
pub open spec fn shifted(v: Value, delta: u64) -> Value {
    if v.tagged_ptr() {
        Value(v.0.wrapping_add(delta))
    } else {
        v
    }
}

impl HeapView {
    /// Slots `i..n` of the object at `o` moved by `delta`.
    pub open spec fn shift_slots(self, o: int, i: int, n: int, delta: u64) -> HeapView
        decreases n - i,
    {
        if i >= n {
            self
        } else {
            let v = self.slot(o, i);
            let h = if v.tagged_ptr() {
                self.set_slot(o, i, shifted(v, delta))
            } else {
                self
            };
            h.shift_slots(o, i + 1, n, delta)
        }
    }

    /// The object at `o` with its collector bits cleared and its pointers
    /// moved.
    pub open spec fn settled(self, o: int, delta: u64) -> HeapView {
        let hd = self.hdr(o);
        let bits = hd.gc_field() & !3u64;
        let h1 = if bits != hd.gc_field() {
            self.write(o, hd.regc(bits).0)
        } else {
            self
        };
        if hd.byte_format() {
            h1
        } else {
            h1.shift_slots(o, 0, self.nslots(o) as int, delta)
        }
    }
}

impl LoadView {
    /// One object of the image settled, and what it adds to the tables.
    pub open spec fn visited(self, o: int, delta: u64) -> LoadView {
        let class = self.heap.hdr(o).class_field();
        let h = self.heap.settled(o, delta);
        let sites = h.slot(o, METHOD_SEND_SITES as int);
        if (class == CLASS_COMPILEDMETHOD || class == CLASS_COMPILEDBLOCK) && h.shaped(
            o,
            METHOD_SEND_SITES + 1,
        ) && sites.tagged_ptr() && h.plausible(sites.addr()) && h.hdr(sites.addr()).format_field()
            == FMT_PTRS {
            LoadView { heap: h, sites: self.sites.push(sites), ..self }
        } else if class == CLASS_SYMBOL && h.bytes_ok(o) {
            LoadView {
                heap: h,
                symbol_names: self.symbol_names.push(h.bytes(o)),
                symbols: self.symbols.push(Value(o as u64)),
                ..self
            }
        } else {
            LoadView { heap: h, ..self }
        }
    }

    pub open spec fn visited_all(self, objs: Seq<usize>, i: int, delta: u64) -> LoadView
        decreases objs.len() - i,
    {
        if i < 0 || i >= objs.len() {
            self
        } else if !self.heap.whole(objs[i] as int) {
            self.visited_all(objs, i + 1, delta)
        } else {
            self.visited(objs[i] as int, delta).visited_all(objs, i + 1, delta)
        }
    }
}

/// The configuration that gives old space room for an image of `size` bytes.
pub open spec fn config_for(config: HeapConfig, size: int) -> HeapConfig {
    HeapConfig {
        old_bytes: if config.old_bytes >= 2 * size {
            config.old_bytes
        } else {
            (2 * size) as usize
        },
        ..config
    }
}

/// The spaces for an image of `size` bytes can be addressed.
pub open spec fn image_fits(config: HeapConfig, size: int) -> bool {
    let old_bytes = if config.old_bytes >= 2 * size {
        config.old_bytes as int
    } else {
        2 * size
    };
    let end = crate::heap::FIRST_SPACE_BASE + 2 * config.young_bytes + old_bytes;
    end <= usize::MAX && end <= crate::heap::ADDRESS_LIMIT
}

/// The slots of an object as a list.
pub open spec fn slot_list(h: HeapView, o: int) -> Seq<Value> {
    Seq::new(h.nslots(o) as nat, |i: int| h.slot(o, i))
}

/// How many special objects the array at `o` gives.
pub open spec fn specials_in(h: HeapView, o: int) -> int {
    if h.nslots(o) < SPECIAL_OBJECTS_COUNT {
        h.nslots(o) as int
    } else {
        SPECIAL_OBJECTS_COUNT as int
    }
}

/// The word that starts with the `n` bytes at `off`; the others are zero.
pub open spec fn rest_word(data: Seq<u8>, off: int, n: int) -> u64 {
    crate::heap::le_word(
        Seq::new(
            8,
            |i: int|
                if i < n {
                    data[off + i]
                } else {
                    0u8
                },
        ),
        0,
    )
}

/// The fields of an image's header.
pub struct ImageHead {
    pub base: u64,
    pub size: u64,
    pub specials: u64,
    pub classes: u64,
    pub active: u64,
}

/// The header of an image, or why it has none.
pub open spec fn image_head(data: Seq<u8>) -> Result<ImageHead, Fault> {
    if data.len() < IMG_HEADER_SIZE || le_u32(data, IMG_MAGIC_OFFSET as int) != IMG_MAGIC {
        Err(Fault::Broken("not a STIM image"@))
    } else if le_u32(data, IMG_VERSION_OFFSET as int) != 1 {
        Err(Fault::Broken("unsupported image version"@))
    } else {
        let h = ImageHead {
            base: crate::heap::le_word(data, IMG_SAVED_BASE_OFFSET as int),
            size: crate::heap::le_word(data, IMG_OLD_SPACE_SIZE_OFFSET as int),
            specials: crate::heap::le_word(data, IMG_SPECIAL_OBJECTS_OFFSET as int),
            classes: crate::heap::le_word(data, IMG_CLASS_LIST_OFFSET as int),
            active: crate::heap::le_word(data, IMG_ACTIVE_PROCESS_OFFSET as int),
        };
        if data.len() < IMG_HEADER_SIZE + h.size {
            Err(Fault::Broken("truncated image"@))
        } else {
            Ok(h)
        }
    }
}

impl VmView {
    /// A heap with the words of an image in old space.
    pub open spec fn image_heap(data: Seq<u8>, size: int, config: HeapConfig) -> HeapView {
        let h = HeapView::fresh(config_for(config, size));
        let n = size / 8;
        let old = h.old.filled_from(data, IMG_HEADER_SIZE as int, n);
        if size % 8 == 0 || n >= old.mem.len() {
            HeapView { old, ..h }
        } else {
            let rest = rest_word(data, IMG_HEADER_SIZE + 8 * n, size % 8);
            HeapView { old: SpaceView { mem: old.mem.update(n, rest), ..old }, ..h }
        }
    }

    /// The pass over a loaded image; `None` where it does not hold whole
    /// objects one after the other.
    pub open spec fn image_pass(data: Seq<u8>, head: ImageHead, config: HeapConfig) -> Option<
        LoadView,
    > {
        let h = VmView::image_heap(data, head.size as int, config);
        match h.walk(h.old.base, h.old.base + head.size) {
            None => None,
            Some(objs) => Some(
                LoadView {
                    heap: h,
                    sites: Seq::empty(),
                    symbol_names: Seq::empty(),
                    symbols: Seq::empty(),
                }.visited_all(objs, 0, (h.old.base as u64).wrapping_sub(head.base)),
            ),
        }
    }

    /// The machine that an image gives.
    #[verifier::opaque]
    pub open spec fn from_image(data: Seq<u8>, config: VmConfig) -> Result<VmView, Fault> {
        match image_head(data) {
            Err(f) => Err(f),
            Ok(head) => if !image_fits(config.heap, head.size as int) {
                Err(Fault::TooLarge)
            } else {
                match VmView::image_pass(data, head, config.heap) {
                    None => Err(Fault::Broken("corrupt image"@)),
                    Some(l) => {
                        let base = l.heap.old.base;
                        let sp = base + head.specials;
                        let cl = base + head.classes;
                        let active = base + head.active;
                        if !l.heap.shaped(sp, specials_in(l.heap, sp)) || !l.heap.whole(cl) || active
                            > u64::MAX || active % 8 != 0 {
                            Err(Fault::Broken("corrupt image"@))
                        } else {
                            Ok(
                                VmView {
                                    heap: l.heap,
                                    class_table: slot_list(l.heap, cl),
                                    specials: slot_list(l.heap, sp).take(
                                        specials_in(l.heap, sp),
                                    ),
                                    symbol_names: l.symbol_names,
                                    symbols: l.symbols,
                                    active: Value(active as u64),
                                    sites: l.sites,
                                    ..VmView::blank(config)
                                },
                            )
                        }
                    },
                }
            },
        }
    }
}

/// The tables found by a pass over a loaded image.
struct Found {
    sites: Vec<Value>,
    symbol_names: Vec<Vec<u8>>,
    symbols: Vec<Value>,
}

impl Found {
    spec fn on(self, heap: HeapView) -> LoadView {
        LoadView {
            heap,
            sites: self.sites@,
            symbol_names: crate::vm::byte_lists(self.symbol_names@),
            symbols: self.symbols@,
        }
    }
}

impl Heap {
    fn shift_slots(&mut self, o: Value, n: u64, delta: u64)
        requires
            old(self).wf(),
            old(self)@.plausible(o.addr()),
            o.addr() + 8 + 8 * n <= old(self)@.limit_of(o.addr()),
        ensures
            final(self).wf(),
            final(self)@.layout() == old(self)@.layout(),
            final(self)@ == old(self)@.shift_slots(o.addr(), 0, n as int, delta),
    {
        let mut i: u64 = 0;
        while i < n
            invariant
                i <= n,
                self.wf(),
                old(self)@.plausible(o.addr()),
                o.addr() + 8 + 8 * n <= old(self)@.limit_of(o.addr()),
                self@.layout() == old(self)@.layout(),
                old(self)@.shift_slots(o.addr(), 0, n as int, delta) == self@.shift_slots(
                    o.addr(),
                    i as int,
                    n as int,
                    delta,
                ),
            decreases n - i,
        {
            let v = self.peek(o, i as usize);
            if v.is_ptr() {
                self.poke(o, i as usize, Value(v.0.wrapping_add(delta)));
            }
            i = i + 1;
        }
    }

    fn settle(&mut self, o: Value, delta: u64)
        requires
            old(self).wf(),
            old(self)@.whole(o.addr()),
        ensures
            final(self).wf(),
            final(self)@.layout() == old(self)@.layout(),
            final(self)@ == old(self)@.settled(o.addr(), delta),
    {
        let h = self.header_of(o);
        let n: u64 = self.count_of(o);
        let g: u64 = h.gc_bits();
        assert(g & !3u64 <= 255) by (bit_vector)
            requires
                g <= 255,
        ;
        let bits: u64 = g & !3u64;
        if bits != g {
            self.set_word_at(o.0, h.with_gc_bits(bits).raw());
        }
        if !h.is_bytes() {
            self.shift_slots(o, n, delta);
        }
    }

    fn visit(&mut self, found: &mut Found, o: Value, delta: u64)
        requires
            old(self).wf(),
            old(self)@.whole(o.addr()),
            o.addr() <= usize::MAX,
        ensures
            final(self).wf(),
            final(self)@.layout() == old(self)@.layout(),
            final(found).on(final(self)@) == old(found).on(old(self)@).visited(o.addr(), delta),
            final(found).symbol_names@.len() - final(found).symbols@.len() == old(
                found,
            ).symbol_names@.len() - old(found).symbols@.len(),
    {
        let c: u32 = self.header_of(o).class_index();
        self.settle(o, delta);
        if (c == CLASS_COMPILEDMETHOD || c == CLASS_COMPILEDBLOCK) && self.shaped(
            o,
            METHOD_SEND_SITES + 1,
        ) {
            let sites = self.peek(o, METHOD_SEND_SITES);
            if sites.is_ptr() && self.plausible_at(sites.0) && self.header_of(sites).format()
                == FMT_PTRS {
                found.sites.push(sites);
            }
        } else if c == CLASS_SYMBOL && self.bytes_ok(o) {
            let data = self.bytes(o.0 as usize);
            found.symbol_names.push(data);
            found.symbols.push(o);
            assert(crate::vm::byte_lists(found.symbol_names@) =~= crate::vm::byte_lists(
                old(found).symbol_names@,
            ).push(data@));
        }
    }

    fn visit_all(&mut self, found: &mut Found, objs: &Vec<usize>, delta: u64)
        requires
            old(self).wf(),
        ensures
            final(self).wf(),
            final(self)@.layout() == old(self)@.layout(),
            final(found).on(final(self)@) == old(found).on(old(self)@).visited_all(
                objs@,
                0,
                delta,
            ),
            final(found).symbol_names@.len() - final(found).symbols@.len() == old(
                found,
            ).symbol_names@.len() - old(found).symbols@.len(),
    {
        let mut i: usize = 0;
        while i < objs.len()
            invariant
                i <= objs@.len(),
                self.wf(),
                self@.layout() == old(self)@.layout(),
                old(found).on(old(self)@).visited_all(objs@, 0, delta) == found.on(
                    self@,
                ).visited_all(objs@, i as int, delta),
                found.symbol_names@.len() - found.symbols@.len() == old(found).symbol_names@.len()
                    - old(found).symbols@.len(),
            decreases objs@.len() - i,
        {
            let o = Value(objs[i] as u64);
            if self.whole(o) {
                self.visit(found, o, delta);
            }
            i = i + 1;
        }
    }

    fn slot_list(&self, o: Value, n: usize) -> (r: Vec<Value>)
        requires
            self.wf(),
            self@.shaped(o.addr(), n as int),
        ensures
            r@ == slot_list(self@, o.addr()).subrange(0, n as int),
    {
        let mut r: Vec<Value> = Vec::new();
        let mut i: usize = 0;
        while i < n
            invariant
                i <= n,
                self.wf(),
                self@.shaped(o.addr(), n as int),
                r@ == slot_list(self@, o.addr()).subrange(0, i as int),
            decreases n - i,
        {
            r.push(self.peek(o, i));
            i = i + 1;
            assert(r@ =~= slot_list(self@, o.addr()).subrange(0, i as int));
        }
        r
    }
}

/// Read an image's header.
fn read_head(data: &[u8]) -> (r: Result<ImageHead, VmError>)
    ensures
        match image_head(data@) {
            Ok(h) => r == Ok::<ImageHead, VmError>(h),
            Err(f) => r is Err && r->Err_0.names(f),
        },
{
    if data.len() < IMG_HEADER_SIZE || get_u32(data, IMG_MAGIC_OFFSET) != IMG_MAGIC {
        return fatal("not a STIM image");
    }
    if get_u32(data, IMG_VERSION_OFFSET) != 1 {
        return fatal("unsupported image version");
    }
    let h = ImageHead {
        base: get_u64(data, IMG_SAVED_BASE_OFFSET),
        size: get_u64(data, IMG_OLD_SPACE_SIZE_OFFSET),
        specials: get_u64(data, IMG_SPECIAL_OBJECTS_OFFSET),
        classes: get_u64(data, IMG_CLASS_LIST_OFFSET),
        active: get_u64(data, IMG_ACTIVE_PROCESS_OFFSET),
    };
    if ((data.len() - IMG_HEADER_SIZE) as u64) < h.size {
        return fatal("truncated image");
    }
    Ok(h)
}

fn rest_of(data: &[u8], off: usize, n: usize) -> (w: u64)
    requires
        n < 8,
        off + n <= data@.len(),
    ensures
        w == rest_word(data@, off as int, n as int),
{
    let len: usize = data.len();
    let mut bytes: Vec<u8> = Vec::new();
    let mut i: usize = 0;
    while i < 8
        invariant
            n < 8,
            len == data@.len(),
            off + n <= data@.len(),
            i <= 8,
            bytes@.len() == i,
            forall|k: int|
                0 <= k < i ==> #[trigger] bytes@[k] == (if k < n {
                    data@[off + k]
                } else {
                    0u8
                }),
        decreases 8 - i,
    {
        bytes.push(
            if i < n {
                data[off + i]
            } else {
                0
            },
        );
        i = i + 1;
    }
    assert(bytes@ =~= Seq::new(
        8,
        |k: int|
            if k < n {
                data@[off + k]
            } else {
                0u8
            },
    ));
    get_u64(bytes.as_slice(), 0)
}

/// The configuration for an image, where the spaces can be addressed.
fn fit_config(config: HeapConfig, size: usize) -> (r: Option<HeapConfig>)
    ensures
        r == (if image_fits(config, size as int) {
            Some(config_for(config, size as int))
        } else {
            None
        }),
        r is Some ==> r->0.addressable() && r->0.old_bytes >= 2 * size,
{
    if size > usize::MAX / 2 {
        return None;
    }
    let old_bytes: usize = if config.old_bytes >= 2 * size {
        config.old_bytes
    } else {
        2 * size
    };
    let c = HeapConfig {
        young_bytes: config.young_bytes,
        old_bytes,
        large_object_bytes: config.large_object_bytes,
    };
    let cap: u64 = if (usize::MAX as u64) < crate::heap::ADDRESS_LIMIT {
        usize::MAX as u64
    } else {
        crate::heap::ADDRESS_LIMIT
    };
    let room: u64 = cap - crate::heap::FIRST_SPACE_BASE as u64;
    if c.old_bytes as u64 > room || c.young_bytes as u64 > (room - c.old_bytes as u64) / 2 {
        return None;
    }
    Some(c)
}

impl Vm {
    /// The heap and tables that an image gives.
    fn load_heap(data: &[u8], head: &ImageHead, config: HeapConfig) -> (r: Option<(Heap, Found)>)
        requires
            image_head(data@) == Ok::<ImageHead, Fault>(*head),
            image_fits(config, head.size as int),
        ensures
            match VmView::image_pass(data@, *head, config) {
                None => r is None,
                Some(l) => {
                    &&& r is Some
                    &&& r->Some_0.0@ == l.heap
                    &&& r->Some_0.0.wf()
                    &&& r->Some_0.1.on(l.heap) == l
                    &&& l.symbols.len() == l.symbol_names.len()
                },
            },
    {
        assert(head.size <= data.len());
        let size: usize = head.size as usize;
        let cfg = match fit_config(config, size) {
            Some(c) => c,
            None => {
                return None;
            },
        };
        let mut heap = Heap::new(cfg);
        let n: usize = size / 8;
        heap.old.fill_from_bytes(data, IMG_HEADER_SIZE, n);
        let base: usize = heap.old.base();
        if size % 8 != 0 && n < heap.old.words() {
            let rest: u64 = rest_of(data, IMG_HEADER_SIZE + 8 * n, size % 8);
            heap.old.set(base as u64 + 8 * n as u64, rest);
        }
        assert(heap@ == VmView::image_heap(data@, size as int, config));
        let delta: u64 = (base as u64).wrapping_sub(head.base);
        let objs = match heap.walk_region(base, base + size) {
            Some(l) => l,
            None => {
                return None;
            },
        };
        let mut found = Found {
            sites: Vec::new(),
            symbol_names: Vec::new(),
            symbols: Vec::new(),
        };
        assert(crate::vm::byte_lists(found.symbol_names@) =~= Seq::empty());
        heap.visit_all(&mut found, &objs, delta);
        Some((heap, found))
    }

    /// The machine that an image gives.
    ///
    /// It holds the special objects that the image holds, up to their number; whether they are
    /// enough to run, [`Vm::complete`] says.
    pub fn load_image(data: &[u8], config: VmConfig) -> (r: Result<Vm, VmError>)
        ensures
            match VmView::from_image(data@, config) {
                Ok(v) => r is Ok && r->Ok_0@ == v && v.consistent(),
                Err(f) => r is Err && r->Err_0.names(f),
            },
    {
        reveal(VmView::from_image);
        let head = read_head(data)?;
        assert(head.size <= data.len());
        if fit_config(config.heap, head.size as usize).is_none() {
            return Err(VmError::OutOfMemory);
        }
        let (heap, found) = match Vm::load_heap(data, &head, config.heap) {
            Some(p) => p,
            None => {
                return fatal("corrupt image");
            },
        };
        let base: u64 = heap.old.base() as u64;
        let room: u64 = u64::MAX - base;
        if head.specials > room || head.classes > room || head.active > room {
            return fatal("corrupt image");
        }
        let sp = Value(base + head.specials);
        let cl = Value(base + head.classes);
        let active = Value(base + head.active);
        if !heap.shaped(sp, 0) {
            return fatal("corrupt image");
        }
        let there: u64 = heap.count_of(sp);
        let n: usize = if there < SPECIAL_OBJECTS_COUNT as u64 {
            there as usize
        } else {
            SPECIAL_OBJECTS_COUNT
        };
        if !heap.shaped(sp, n) || !heap.whole(cl) || active.0 % 8 != 0 {
            return fatal("corrupt image");
        }
        let specials = heap.slot_list(sp, n);
        let class_table = heap.slot_list(cl, heap.count_of(cl) as usize);
        assert(class_table@ =~= slot_list(heap@, cl.addr()));
        let lookup_cache: Vec<LookupEntry> = vec![LookupEntry {
            class_index: 0,
            selector: Value(0),
            method: Value(0),
        };LOOKUP_CACHE_SIZE];
        assert(lookup_cache@ =~= crate::vm::no_entries());
        let vm = Vm {
            heap,
            class_table,
            specials,
            symbol_names: found.symbol_names,
            symbols: found.symbols,
            temp_roots: Vec::new(),
            active_process: active,
            site_registry: found.sites,
            lookup_cache,
            hash_counter: 0,
            safepoint: SafepointShared::new(),
            gc_epoch: 0,
            max_stack_bytes: config.max_stack_bytes,
            stdout_capture: Vec::new(),
            scavenge_count: 0,
            compact_count: 0,
            stack_grow_count: 0,
            tenure_threshold: TENURE_AGE,
            files: Vec::new(),
            now_ns: 0,
            timer_times: Vec::new(),
            timer_sems: Vec::new(),
            snapshot_after_sends: None,
            sends_seen: 0,
            snapshot_fired_at_capture_len: None,
            counters: Counters::new(),
            profiler: Profiler::default(),
            jit: None,
            host: HostUi::new(),
            request: None,
        };
        assert(Ok::<VmView, Fault>(vm@) == VmView::from_image(data@, config));
        Ok(vm)
    }
}

} // verus!
