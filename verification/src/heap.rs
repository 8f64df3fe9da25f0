//! Object headers, spaces, and allocation.
//!
//! A [`Space`] owns a run of words at a fixed range of addresses; three of
//! them, at disjoint ranges, make a [`Heap`]. Object references everywhere
//! are addresses of header words, and all access goes through the heap.

use crate::treaty::{
    FMT_BYTES_BASE, FMT_FIXED, FMT_PTRS, GC_BIT_IMMUTABLE, GC_BIT_REMEMBERED, HDR_CLASS_BITS,
    HDR_CLASS_SHIFT, HDR_FORMAT_BITS, HDR_FORMAT_SHIFT, HDR_GC_BITS, HDR_GC_SHIFT, HDR_HASH_BITS,
    HDR_HASH_SHIFT, HDR_NSLOTS_BITS, HDR_NSLOTS_OVERFLOW, HDR_NSLOTS_SHIFT, LARGE_OBJECT_BYTES,
    YOUNG_SPACE_BYTES_DEFAULT,
};
use crate::value::Value;
use vstd::prelude::*;

verus! {

// ---------------------------------------------------------------------------
// Headers
// ---------------------------------------------------------------------------
/// One 64-bit object header word: class index, identity hash, slot count,
/// format and collector bits, from the top down.
#[derive(Clone, Copy, PartialEq, Eq, Structural, Debug)]
pub struct Header(pub u64);

/// Largest class index a header can hold.
pub const MAX_CLASS_INDEX: u32 = 4194303;

/// A word with its low `bits` bits set.
pub open spec fn low_bits(bits: u32) -> u64 {
    ((1u64 << bits) - 1) as u64
}

fn mask(bits: u32) -> (m: u64)
    requires
        bits < 64,
    ensures
        m == low_bits(bits),
{
    assert(1u64 << bits >= 1) by (bit_vector)
        requires
            bits < 64,
    ;
    (1u64 << bits) - 1
}

impl Header {
    pub open spec fn class_field(self) -> u64 {
        (self.0 >> 42u64) & 0x3fffff
    }

    pub open spec fn hash_field(self) -> u64 {
        (self.0 >> 20u64) & 0x3fffff
    }

    pub open spec fn nslots_field(self) -> u64 {
        (self.0 >> 12u64) & 0xff
    }

    pub open spec fn format_field(self) -> u64 {
        (self.0 >> 8u64) & 0xf
    }

    pub open spec fn gc_field(self) -> u64 {
        self.0 & 0xff
    }

    /// The object's body is bytes, not slots.
    pub open spec fn byte_format(self) -> bool {
        self.format_field() >= 8
    }

    /// The header with the given fields and a zero hash and collector byte.
    pub open spec fn packed(class_index: u64, format: u64, nslots: u64) -> Header {
        Header((class_index << 42u64) | (nslots << 12u64) | (format << 8u64))
    }

    /// This header with its hash field replaced.
    pub open spec fn hashed(self, hash: u64) -> Header {
        Header((self.0 & !(0x3fffffu64 << 20u64)) | (hash << 20u64))
    }

    /// This header with its collector byte replaced.
    pub open spec fn regc(self, bits: u64) -> Header {
        Header((self.0 & !0xffu64) | bits)
    }
}

/// The masks behind the header fields.
proof fn lemma_masks()
    ensures
        low_bits(22) == 0x3fffff,
        low_bits(8) == 0xff,
        low_bits(4) == 0xf,
{
    assert((1u64 << 22u32) == 0x400000 && (1u64 << 8u32) == 0x100 && (1u64 << 4u32) == 0x10)
        by (bit_vector);
}

/// Packing a header and reading its fields back gives what was packed.
pub proof fn lemma_packed_fields(class_index: u64, format: u64, nslots: u64)
    requires
        class_index <= 0x3fffff,
        format <= 0xf,
        nslots <= 0xff,
    ensures
        Header::packed(class_index, format, nslots).class_field() == class_index,
        Header::packed(class_index, format, nslots).format_field() == format,
        Header::packed(class_index, format, nslots).nslots_field() == nslots,
        Header::packed(class_index, format, nslots).hash_field() == 0,
        Header::packed(class_index, format, nslots).gc_field() == 0,
{
    let w = (class_index << 42u64) | (nslots << 12u64) | (format << 8u64);
    assert((w >> 42u64) & 0x3fffff == class_index && (w >> 8u64) & 0xf == format && (w >> 12u64)
        & 0xff == nslots && (w >> 20u64) & 0x3fffff == 0 && w & 0xff == 0) by (bit_vector)
        requires
            class_index <= 0x3fffff,
            format <= 0xf,
            nslots <= 0xff,
            w == (class_index << 42u64) | (nslots << 12u64) | (format << 8u64),
    ;
}

/// The bits of a collector's byte with the immutable bit set.
pub(crate) proof fn lemma_immutable_bits(g: u64)
    ensures
        g <= 255 ==> g | 128 <= 255,
        (g | 128) & 1 == g & 1,
        (g | 128) & 2 == g & 2,
        0u64 & 2 == 0,
{
    assert((g <= 255 ==> g | 128 <= 255) && (g | 128) & 1 == g & 1 && (g | 128) & 2 == g & 2 && 0u64
        & 2 == 0) by (bit_vector);
}

/// Replacing the hash or the collector byte changes that field alone.
pub proof fn lemma_header_update(h: Header, hash: u64, bits: u64)
    requires
        hash <= 0x3fffff,
        bits <= 0xff,
    ensures
        h.hashed(hash).hash_field() == hash,
        h.hashed(hash).class_field() == h.class_field(),
        h.hashed(hash).nslots_field() == h.nslots_field(),
        h.hashed(hash).format_field() == h.format_field(),
        h.hashed(hash).gc_field() == h.gc_field(),
        h.regc(bits).gc_field() == bits,
        h.regc(bits).class_field() == h.class_field(),
        h.regc(bits).nslots_field() == h.nslots_field(),
        h.regc(bits).format_field() == h.format_field(),
        h.regc(bits).hash_field() == h.hash_field(),
        h.class_field() <= 0x3fffff,
        h.hash_field() <= 0x3fffff,
        h.nslots_field() <= 0xff,
        h.format_field() <= 0xf,
        h.gc_field() <= 0xff,
{
    let w = h.0;
    let a = (w & !(0x3fffffu64 << 20u64)) | (hash << 20u64);
    let b = (w & !0xffu64) | bits;
    assert((a >> 20u64) & 0x3fffff == hash && (a >> 42u64) & 0x3fffff == (w >> 42u64) & 0x3fffff
        && (a >> 12u64) & 0xff == (w >> 12u64) & 0xff && (a >> 8u64) & 0xf == (w >> 8u64) & 0xf && a
        & 0xff == w & 0xff && b & 0xff == bits && (b >> 42u64) & 0x3fffff == (w >> 42u64) & 0x3fffff
        && (b >> 12u64) & 0xff == (w >> 12u64) & 0xff && (b >> 8u64) & 0xf == (w >> 8u64) & 0xf && (
    b >> 20u64) & 0x3fffff == (w >> 20u64) & 0x3fffff && (w >> 42u64) & 0x3fffff <= 0x3fffff && (w
        >> 20u64) & 0x3fffff <= 0x3fffff && (w >> 12u64) & 0xff <= 0xff && (w >> 8u64) & 0xf <= 0xf
        && w & 0xff <= 0xff) by (bit_vector)
        requires
            hash <= 0x3fffff,
            bits <= 0xff,
            a == (w & !(0x3fffffu64 << 20u64)) | (hash << 20u64),
            b == (w & !0xffu64) | bits,
    ;
}

impl Header {
    /// A header with the given class index, format and slot count field.
    pub fn new(class_index: u32, format: u64, num_slots_field: u64) -> (h: Header)
        requires
            class_index <= MAX_CLASS_INDEX,
            format <= 15,
            num_slots_field <= 255,
        ensures
            h == Header::packed(class_index as u64, format, num_slots_field),
            h.class_field() == class_index,
            h.format_field() == format,
            h.nslots_field() == num_slots_field,
            h.hash_field() == 0,
            h.gc_field() == 0,
    {
        proof {
            lemma_packed_fields(class_index as u64, format, num_slots_field);
        }
        Header(
            ((class_index as u64) << HDR_CLASS_SHIFT) | (num_slots_field << HDR_NSLOTS_SHIFT) | (
            format << HDR_FORMAT_SHIFT),
        )
    }

    pub fn raw(self) -> (w: u64)
        ensures
            w == self.0,
    {
        self.0
    }

    pub fn from_raw(w: u64) -> (h: Header)
        ensures
            h == Header(w),
    {
        Header(w)
    }

    pub fn class_index(self) -> (c: u32)
        ensures
            c == self.class_field(),
            c <= MAX_CLASS_INDEX,
    {
        proof {
            lemma_masks();
            lemma_header_update(self, 0, 0);
        }
        ((self.0 >> HDR_CLASS_SHIFT) & mask(HDR_CLASS_BITS)) as u32
    }

    pub fn hash(self) -> (h: u32)
        ensures
            h == self.hash_field(),
            h <= 0x3fffff,
    {
        proof {
            lemma_masks();
            lemma_header_update(self, 0, 0);
        }
        ((self.0 >> HDR_HASH_SHIFT) & mask(HDR_HASH_BITS)) as u32
    }

    /// The header with its hash field replaced.
    pub fn with_hash(self, hash: u32) -> (h: Header)
        requires
            hash <= 0x3fffff,
        ensures
            h == self.hashed(hash as u64),
            h.hash_field() == hash,
            h.class_field() == self.class_field(),
            h.nslots_field() == self.nslots_field(),
            h.format_field() == self.format_field(),
            h.gc_field() == self.gc_field(),
    {
        proof {
            lemma_masks();
            lemma_header_update(self, hash as u64, 0);
        }
        Header(
            (self.0 & !(mask(HDR_HASH_BITS) << HDR_HASH_SHIFT)) | ((hash as u64) << HDR_HASH_SHIFT),
        )
    }

    /// The raw 8-bit field; 255 means the true count lives in the overflow
    /// word preceding the header.
    pub fn num_slots_field(self) -> (n: u64)
        ensures
            n == self.nslots_field(),
            n <= 255,
    {
        proof {
            lemma_masks();
            lemma_header_update(self, 0, 0);
        }
        (self.0 >> HDR_NSLOTS_SHIFT) & mask(HDR_NSLOTS_BITS)
    }

    pub fn format(self) -> (f: u64)
        ensures
            f == self.format_field(),
            f <= 15,
    {
        proof {
            lemma_masks();
            lemma_header_update(self, 0, 0);
        }
        (self.0 >> HDR_FORMAT_SHIFT) & mask(HDR_FORMAT_BITS)
    }

    pub fn gc_bits(self) -> (g: u64)
        ensures
            g == self.gc_field(),
            g <= 255,
    {
        let w = self.0;
        proof {
            lemma_masks();
            lemma_header_update(self, 0, 0);
            assert(w >> 0u32 == w) by (bit_vector);
        }
        (self.0 >> HDR_GC_SHIFT) & mask(HDR_GC_BITS)
    }

    /// The header with its collector byte replaced.
    pub fn with_gc_bits(self, bits: u64) -> (h: Header)
        requires
            bits <= 255,
        ensures
            h == self.regc(bits),
            h.gc_field() == bits,
            h.class_field() == self.class_field(),
            h.hash_field() == self.hash_field(),
            h.nslots_field() == self.nslots_field(),
            h.format_field() == self.format_field(),
    {
        proof {
            lemma_masks();
            lemma_header_update(self, 0, bits);
            assert(0xffu64 << 0u32 == 0xff && bits << 0u32 == bits) by (bit_vector);
        }
        Header((self.0 & !(mask(HDR_GC_BITS) << HDR_GC_SHIFT)) | (bits << HDR_GC_SHIFT))
    }

    pub fn is_bytes(self) -> (b: bool)
        ensures
            b == self.byte_format(),
    {
        self.format() >= FMT_BYTES_BASE
    }
}

// ---------------------------------------------------------------------------
// Spaces
// ---------------------------------------------------------------------------
/// No address of a space is beyond this, so that every slot count and frame
/// offset fits a SmallInteger.
pub const ADDRESS_LIMIT: u64 = 0x1000_0000_0000_0000;

/// Where the first space of a heap starts.
pub const FIRST_SPACE_BASE: usize = 65536;

/// `n` zero words.
pub open spec fn zero_words(n: nat) -> Seq<u64> {
    Seq::new(n, |k: int| 0u64)
}

/// The contents of a space: its words, where they start, and how many of
/// them are allocated.
#[verifier::ext_equal]
pub struct SpaceView {
    pub base: int,
    pub mem: Seq<u64>,
    pub alloc: int,
}

impl SpaceView {
    /// The words lie at aligned addresses below the limits, and the
    /// allocated part is a prefix.
    pub open spec fn wf(self) -> bool {
        &&& self.base % 8 == 0
        &&& 8 <= self.base
        &&& self.limit() <= usize::MAX
        &&& self.limit() <= ADDRESS_LIMIT
        &&& 0 <= self.alloc <= self.mem.len()
    }

    /// One past the last address.
    pub open spec fn limit(self) -> int {
        self.base + 8 * self.mem.len()
    }

    /// The next address to be allocated.
    pub open spec fn top(self) -> int {
        self.base + 8 * self.alloc
    }

    pub open spec fn has(self, a: int) -> bool {
        self.base <= a < self.limit()
    }

    /// The word at address `a`.
    pub open spec fn at(self, a: int) -> u64 {
        self.mem[(a - self.base) / 8]
    }

    /// The space after storing `w` at address `a`.
    pub open spec fn put(self, a: int, w: u64) -> SpaceView {
        SpaceView { mem: self.mem.update((a - self.base) / 8, w), ..self }
    }

    /// There are `n` words left.
    pub open spec fn fits(self, n: int) -> bool {
        self.alloc + n <= self.mem.len()
    }

    /// The space with `n` more words allocated.
    pub open spec fn bump(self, n: int) -> SpaceView {
        SpaceView { alloc: self.alloc + n, ..self }
    }

    /// The empty, zeroed space of the same extent.
    pub open spec fn emptied(self) -> SpaceView {
        SpaceView { mem: zero_words(self.mem.len()), alloc: 0, ..self }
    }

    /// Everything beyond the allocated part is zero.
    pub open spec fn clean(self) -> bool {
        forall|k: int| self.alloc <= k < self.mem.len() ==> #[trigger] self.mem[k] == 0
    }

    /// The words in `[k, k + n)` set to `w`.
    pub open spec fn filled(self, k: int, n: int, w: u64) -> SpaceView {
        SpaceView {
            mem: Seq::new(
                self.mem.len(),
                |j: int|
                    if k <= j < k + n {
                        w
                    } else {
                        self.mem[j]
                    },
            ),
            ..self
        }
    }
}

/// A contiguous region of words at a fixed range of addresses, with bump
/// allocation.
pub struct Space {
    base: usize,
    mem: Vec<u64>,
    /// Bump offset, in words.
    pub alloc: usize,
}

impl View for Space {
    type V = SpaceView;

    closed spec fn view(&self) -> SpaceView {
        SpaceView { base: self.base as int, mem: self.mem@, alloc: self.alloc as int }
    }
}

impl Space {
    /// A zeroed space of `bytes / 8` words at the default base.
    pub fn new(bytes: usize) -> (s: Space)
        requires
            bytes + FIRST_SPACE_BASE <= usize::MAX,
            bytes + FIRST_SPACE_BASE <= ADDRESS_LIMIT,
        ensures
            s@.wf(),
            s@ == (SpaceView {
                base: FIRST_SPACE_BASE as int,
                mem: zero_words((bytes / 8) as nat),
                alloc: 0,
            }),
            s@.clean(),
    {
        Space::at_base(FIRST_SPACE_BASE, bytes)
    }

    /// A zeroed space of `bytes / 8` words at the given base.
    pub fn at_base(base: usize, bytes: usize) -> (s: Space)
        requires
            base % 8 == 0,
            8 <= base,
            bytes + base <= usize::MAX,
            bytes + base <= ADDRESS_LIMIT,
        ensures
            s@.wf(),
            s@ == (SpaceView {
                base: base as int,
                mem: zero_words((bytes / 8) as nat),
                alloc: 0,
            }),
            s@.clean(),
    {
        let words: usize = bytes / 8;
        let s = Space { base, mem: vec![0u64; words], alloc: 0 };
        assert(s@.mem =~= zero_words((bytes / 8) as nat));
        s
    }

    pub fn base(&self) -> (b: usize)
        ensures
            b == self@.base,
    {
        self.base
    }

    /// The number of words.
    pub fn words(&self) -> (n: usize)
        ensures
            n == self@.mem.len(),
    {
        self.mem.len()
    }

    pub fn limit(&self) -> (l: usize)
        requires
            self@.wf(),
        ensures
            l == self@.limit(),
    {
        self.base + self.mem.len() * 8
    }

    pub fn top(&self) -> (t: usize)
        requires
            self@.wf(),
        ensures
            t == self@.top(),
    {
        self.base + self.alloc * 8
    }

    pub fn contains(&self, addr: usize) -> (b: bool)
        requires
            self@.wf(),
        ensures
            b == self@.has(addr as int),
    {
        addr >= self.base() && addr < self.limit()
    }

    pub fn bytes_remaining(&self) -> (n: usize)
        requires
            self@.wf(),
        ensures
            n == 8 * (self@.mem.len() - self@.alloc),
    {
        (self.mem.len() - self.alloc) * 8
    }

    pub fn used_bytes(&self) -> (n: usize)
        requires
            self@.wf(),
        ensures
            n == 8 * self@.alloc,
    {
        self.alloc * 8
    }

    /// Bump-allocate `n` words; `None`, and nothing changes, when they do
    /// not fit.
    pub fn alloc_words(&mut self, n: usize) -> (r: Option<usize>)
        requires
            old(self)@.wf(),
        ensures
            final(self)@.wf(),
            old(self)@.fits(n as int) ==> r == Some(old(self)@.top() as usize) && final(self)@ == old(
                self,
            )@.bump(n as int) && r->0 == old(self)@.top(),
            !old(self)@.fits(n as int) ==> r is None && final(self)@ == old(self)@,
    {
        if n > self.mem.len() - self.alloc {
            return None;
        }
        let addr: usize = self.base + self.alloc * 8;
        self.alloc = self.alloc + n;
        Some(addr)
    }

    /// Empty the space and zero its memory.
    pub fn reset(&mut self)
        requires
            old(self)@.wf(),
        ensures
            final(self)@.wf(),
            final(self)@ == old(self)@.emptied(),
            final(self)@.clean(),
    {
        let n: usize = self.mem.len();
        self.mem = vec![0u64; n];
        self.alloc = 0;
        assert(self@.mem =~= old(self)@.emptied().mem);
    }

    /// The word at an address of the space.
    pub(crate) fn get(&self, a: u64) -> (w: u64)
        requires
            self@.wf(),
            self@.has(a as int),
        ensures
            w == self@.at(a as int),
    {
        let k: usize = ((a - self.base as u64) / 8) as usize;
        self.mem[k]
    }

    /// Store a word at an address of the space.
    pub(crate) fn set(&mut self, a: u64, w: u64)
        requires
            old(self)@.wf(),
            old(self)@.has(a as int),
        ensures
            final(self)@.wf(),
            final(self)@ == old(self)@.put(a as int, w),
    {
        let k: usize = ((a - self.base as u64) / 8) as usize;
        self.mem.set(k, w);
    }

    /// Set the bump offset and zero everything above it.
    pub(crate) fn truncate_to(&mut self, words: usize)
        requires
            old(self)@.wf(),
            words <= old(self)@.mem.len(),
        ensures
            final(self)@.wf(),
            final(self)@ == (SpaceView {
                alloc: words as int,
                ..old(self)@.filled(words as int, old(self)@.mem.len() - words, 0)
            }),
            final(self)@.clean(),
    {
        let n: usize = self.mem.len();
        let mut k: usize = words;
        while k < n
            invariant
                words <= k <= n,
                n == self.mem.len(),
                n == old(self)@.mem.len(),
                self.base == old(self)@.base,
                forall|j: int|
                    0 <= j < n ==> self.mem@[j] == (if words <= j < k {
                        0
                    } else {
                        old(self)@.mem[j]
                    }),
            decreases n - k,
        {
            self.mem.set(k, 0);
            k = k + 1;
        }
        self.alloc = words;
        assert(self@.mem =~= old(self)@.filled(words as int, old(self)@.mem.len() - words, 0).mem);
    }

    /// Set the `n` words from index `k` on to `w`.
    pub(crate) fn fill(&mut self, k: usize, n: usize, w: u64)
        requires
            old(self)@.wf(),
            k + n <= old(self)@.mem.len(),
        ensures
            final(self)@.wf(),
            final(self)@ == old(self)@.filled(k as int, n as int, w),
    {
        let mut j: usize = k;
        while j < k + n
            invariant
                k <= j <= k + n,
                k + n <= self.mem.len(),
                self.mem.len() == old(self)@.mem.len(),
                self.base == old(self)@.base,
                self.alloc == old(self)@.alloc,
                forall|i: int|
                    0 <= i < self.mem.len() ==> self.mem@[i] == (if k <= i < j {
                        w
                    } else {
                        old(self)@.mem[i]
                    }),
            decreases k + n - j,
        {
            self.mem.set(j, w);
            j = j + 1;
        }
        assert(self@.mem =~= old(self)@.filled(k as int, n as int, w).mem);
    }

    /// Place `n` words of another space, from index `from` on, at the top.
    pub(crate) fn paste(&mut self, src: &Space, from: usize, n: usize)
        requires
            old(self)@.wf(),
            old(self)@.fits(n as int),
            from + n <= src@.mem.len(),
        ensures
            final(self)@.wf(),
            final(self)@ == old(self)@.pasted(src@.mem.subrange(from as int, from + n)),
    {
        let k: usize = self.alloc;
        let avail: usize = src.mem.len();
        let mut j: usize = 0;
        while j < n
            invariant
                j <= n,
                from + n <= avail,
                avail == src@.mem.len(),
                k == old(self)@.alloc,
                k + n <= self.mem.len(),
                from + n <= src@.mem.len(),
                self.mem.len() == old(self)@.mem.len(),
                self.base == old(self)@.base,
                forall|i: int|
                    0 <= i < self.mem.len() ==> self.mem@[i] == (if k <= i < k + j {
                        src@.mem[from + i - k]
                    } else {
                        old(self)@.mem[i]
                    }),
            decreases n - j,
        {
            self.mem.set(k + j, src.mem[from + j]);
            j = j + 1;
        }
        self.alloc = k + n;
        assert(self@.mem =~= old(self)@.pasted(src@.mem.subrange(from as int, from + n)).mem);
    }

    /// Copy `n` words from index `s` to index `d`, which is not above it.
    #[verifier::loop_isolation(false)]
    #[verifier::rlimit(60)]
    pub(crate) fn shift(&mut self, s: usize, d: usize, n: usize)
        requires
            old(self)@.wf(),
            d <= s,
            s + n <= old(self)@.mem.len(),
        ensures
            final(self)@.wf(),
            final(self)@ == old(self)@.moved(s as int, d as int, n as int),
    {
        let mut j: usize = 0;
        let ghost m0 = self@;
        while j < n
            invariant
                j <= n,
                self@.wf(),
                self@.mem.len() == m0.mem.len(),
                self@.base == m0.base,
                self@.alloc == m0.alloc,
                forall|i: int|
                    0 <= i < m0.mem.len() ==> #[trigger] self@.mem[i] == (if d <= i < d + j {
                        m0.mem[i - d + s]
                    } else {
                        m0.mem[i]
                    }),
            decreases n - j,
        {
            let w: u64 = self.mem[s + j];
            self.mem.set(d + j, w);
            j = j + 1;
        }
        assert(self@.mem =~= m0.moved(s as int, d as int, n as int).mem);
    }

    /// Allocate an object of `nslots` slots: the overflow size word when the
    /// count does not fit the header, then the header, then the body, which
    /// is filled with `fill` unless that is `None`.
    pub(crate) fn carve(
        &mut self,
        class_index: u32,
        format: u64,
        nslots: usize,
        fill: Option<u64>,
    ) -> (r: Option<usize>)
        requires
            old(self)@.wf(),
            class_index <= MAX_CLASS_INDEX,
            format <= 15,
        ensures
            final(self)@.wf(),
            old(self)@.fits(words_for(nslots as int)) ==> r == Some(
                old(self)@.carved_at(nslots as int) as usize,
            ) && r->0 == old(self)@.carved_at(nslots as int) && final(self)@ == old(self)@.carved(
                class_index as u64,
                format,
                nslots as int,
                fill,
            ),
            !old(self)@.fits(words_for(nslots as int)) ==> r is None && final(self)@ == old(self)@,
    {
        let free: usize = self.mem.len() - self.alloc;
        let over = nslots >= HDR_NSLOTS_OVERFLOW as usize;
        let extra: usize = if over {
            1
        } else {
            0
        };
        if free < 1 + extra || nslots > free - 1 - extra {
            return None;
        }
        let field: u64 = if over {
            HDR_NSLOTS_OVERFLOW
        } else {
            nslots as u64
        };
        let k: usize = self.alloc;
        if over {
            self.mem.set(k, nslots as u64);
        }
        let h = Header::new(class_index, format, field);
        self.mem.set(k + extra, h.raw());
        self.alloc = k + extra + 1 + nslots;
        if let Some(w) = fill {
            self.fill(k + extra + 1, nslots, w);
        }
        Some(self.base + (k + extra) * 8)
    }
}

/// Words an object of `n` slots takes: header, body, and the overflow word
/// when the count does not fit the header.
pub open spec fn words_for(n: int) -> int {
    n + 1 + if n >= 255 {
        1int
    } else {
        0
    }
}

impl SpaceView {
    /// Address of the header of an object of `n` slots allocated next.
    pub open spec fn carved_at(self, n: int) -> int {
        self.base + 8 * (self.alloc + words_for(n) - n - 1)
    }

    /// The space after allocating an object of `n` slots.
    pub open spec fn carved(
        self,
        class_index: u64,
        format: u64,
        n: int,
        fill: Option<u64>,
    ) -> SpaceView {
        let k = self.alloc + words_for(n) - n - 1;
        let m0 = if n >= 255 {
            self.mem.update(self.alloc, n as u64)
        } else {
            self.mem
        };
        let m1 = m0.update(
            k,
            Header::packed(
                class_index,
                format,
                if n >= 255 {
                    255u64
                } else {
                    n as u64
                },
            ).0,
        );
        let s1 = SpaceView { mem: m1, alloc: self.alloc + words_for(n), ..self };
        match fill {
            Some(w) => s1.filled(k + 1, n, w),
            None => s1,
        }
    }
}

// ---------------------------------------------------------------------------
// The heap
// ---------------------------------------------------------------------------
/// Sizes of the spaces and the large-object threshold, in bytes.
#[derive(Clone, Copy)]
pub struct HeapConfig {
    pub young_bytes: usize,
    pub old_bytes: usize,
    pub large_object_bytes: usize,
}

impl Default for HeapConfig {
    fn default() -> (c: HeapConfig)
        ensures
            c.young_bytes == YOUNG_SPACE_BYTES_DEFAULT,
            c.old_bytes == 67108864,
            c.large_object_bytes == LARGE_OBJECT_BYTES,
    {
        HeapConfig {
            young_bytes: YOUNG_SPACE_BYTES_DEFAULT,
            old_bytes: 67108864,
            large_object_bytes: LARGE_OBJECT_BYTES,
        }
    }
}

impl HeapConfig {
    /// The three spaces fit below the address limits.
    pub open spec fn addressable(self) -> bool {
        &&& FIRST_SPACE_BASE + 2 * self.young_bytes + self.old_bytes <= usize::MAX
        &&& FIRST_SPACE_BASE + 2 * self.young_bytes + self.old_bytes <= ADDRESS_LIMIT
    }
}

/// The state of a heap.
#[verifier::ext_equal]
pub struct HeapView {
    pub from: SpaceView,
    pub to: SpaceView,
    pub old: SpaceView,
    pub ssb: Seq<usize>,
    pub config: HeapConfig,
    pub young_count: u64,
    pub young_bytes: u64,
    pub old_count: u64,
    pub old_bytes: u64,
    pub large_count: u64,
}

/// Byte `k` of a word, counting from the low end.
pub open spec fn byte_of(w: u64, k: int) -> u8 {
    ((w >> ((8 * k) as u64)) & 0xff) as u8
}

/// The word whose eight bytes start at `off`, low byte first.
pub open spec fn le_word(data: Seq<u8>, off: int) -> u64 {
    (data[off] as u64) | ((data[off + 1] as u64) << 8u64) | ((data[off + 2] as u64) << 16u64) | ((
    data[off + 3] as u64) << 24u64) | ((data[off + 4] as u64) << 32u64) | ((data[off + 5] as u64)
        << 40u64) | ((data[off + 6] as u64) << 48u64) | ((data[off + 7] as u64) << 56u64)
}

/// The word whose eight bytes start at `off`.
pub(crate) fn get_u64(data: &[u8], off: usize) -> (w: u64)
    requires
        off + 8 <= data@.len(),
    ensures
        w == le_word(data@, off as int),
{
    (data[off] as u64) | ((data[off + 1] as u64) << 8u64) | ((data[off + 2] as u64) << 16u64) | ((
    data[off + 3] as u64) << 24u64) | ((data[off + 4] as u64) << 32u64) | ((data[off + 5] as u64)
        << 40u64) | ((data[off + 6] as u64) << 48u64) | ((data[off + 7] as u64) << 56u64)
}

impl SpaceView {
    /// The space with its first `n` words read from bytes.
    pub open spec fn filled_from(self, data: Seq<u8>, off: int, n: int) -> SpaceView {
        SpaceView {
            mem: Seq::new(
                self.mem.len(),
                |j: int|
                    if j < n {
                        le_word(data, off + 8 * j)
                    } else {
                        self.mem[j]
                    },
            ),
            alloc: n,
            ..self
        }
    }
}

impl Space {
    /// Read the first `n` words from bytes, and count them as allocated.
    pub(crate) fn fill_from_bytes(&mut self, data: &[u8], off: usize, n: usize)
        requires
            old(self)@.wf(),
            n <= old(self)@.mem.len(),
            off + 8 * n <= data@.len(),
        ensures
            final(self)@.wf(),
            final(self)@ == old(self)@.filled_from(data@, off as int, n as int),
    {
        let len: usize = data.len();
        let mut j: usize = 0;
        while j < n
            invariant
                j <= n,
                n <= self.mem.len(),
                off + 8 * n <= data@.len(),
                len == data@.len(),
                self.mem.len() == old(self)@.mem.len(),
                self.base == old(self)@.base,
                self.alloc == old(self)@.alloc,
                forall|i: int|
                    0 <= i < self.mem.len() ==> self.mem@[i] == (if i < j {
                        le_word(data@, off + 8 * i)
                    } else {
                        old(self)@.mem[i]
                    }),
            decreases n - j,
        {
            let w: u64 = get_u64(data, off + 8 * j);
            self.mem.set(j, w);
            j = j + 1;
        }
        self.alloc = n;
        assert(self@.mem =~= old(self)@.filled_from(data@, off as int, n as int).mem);
    }
}

/// The word with byte `k` replaced.
pub open spec fn with_byte(w: u64, k: int, b: u8) -> u64 {
    (w & !(0xffu64 << ((8 * k) as u64))) | ((b as u64) << ((8 * k) as u64))
}

/// Where the three spaces lie.
pub struct Layout {
    pub from_base: int,
    pub from_limit: int,
    pub to_base: int,
    pub to_limit: int,
    pub old_base: int,
    pub old_limit: int,
}

impl Layout {
    pub open spec fn young(self, a: int) -> bool {
        self.from_base <= a < self.from_limit
    }

    pub open spec fn spare(self, a: int) -> bool {
        self.to_base <= a < self.to_limit
    }

    pub open spec fn tenured(self, a: int) -> bool {
        self.old_base <= a < self.old_limit
    }

    /// `a` is the address of a word of some space.
    pub open spec fn holds(self, a: int) -> bool {
        a % 8 == 0 && (self.young(a) || self.spare(a) || self.tenured(a))
    }

    /// One past the last address of the space that holds `a`.
    pub open spec fn limit_of(self, a: int) -> int {
        if self.young(a) {
            self.from_limit
        } else if self.spare(a) {
            self.to_limit
        } else {
            self.old_limit
        }
    }
}

impl HeapView {
    pub open spec fn wf(self) -> bool {
        &&& self.from.wf()
        &&& self.to.wf()
        &&& self.old.wf()
        &&& self.from.limit() <= self.to.base || self.to.limit() <= self.from.base
        &&& self.from.limit() <= self.old.base || self.old.limit() <= self.from.base
        &&& self.to.limit() <= self.old.base || self.old.limit() <= self.to.base
    }

    pub open spec fn layout(self) -> Layout {
        Layout {
            from_base: self.from.base,
            from_limit: self.from.limit(),
            to_base: self.to.base,
            to_limit: self.to.limit(),
            old_base: self.old.base,
            old_limit: self.old.limit(),
        }
    }

    /// `a` is the address of a word of some space.
    pub open spec fn plausible(self, a: int) -> bool {
        self.layout().holds(a)
    }

    /// `a` lies in the space that new objects go to.
    pub open spec fn young(self, a: int) -> bool {
        self.layout().young(a)
    }

    /// `a` lies in old space.
    pub open spec fn tenured(self, a: int) -> bool {
        self.layout().tenured(a)
    }

    /// The word at address `a`.
    #[verifier::opaque]
    pub open spec fn read(self, a: int) -> u64 {
        if self.from.has(a) {
            self.from.at(a)
        } else if self.to.has(a) {
            self.to.at(a)
        } else {
            self.old.at(a)
        }
    }

    /// The heap after storing `w` at address `a`.
    #[verifier::opaque]
    pub open spec fn write(self, a: int, w: u64) -> HeapView {
        if self.from.has(a) {
            HeapView { from: self.from.put(a, w), ..self }
        } else if self.to.has(a) {
            HeapView { to: self.to.put(a, w), ..self }
        } else if self.old.has(a) {
            HeapView { old: self.old.put(a, w), ..self }
        } else {
            self
        }
    }

    /// One past the last address of the space that holds `a`.
    pub open spec fn limit_of(self, a: int) -> int {
        self.layout().limit_of(a)
    }

    /// An old object has been noted as possibly holding young pointers.
    pub open spec fn is_remembered(self, o: int) -> bool {
        self.hdr(o).gc_field() & 2 != 0
    }

    /// The heap with the object at `o` in the remembered set, once.
    pub open spec fn remembered(self, o: int) -> HeapView {
        if self.is_remembered(o) {
            self
        } else {
            let h = self.write(o, self.hdr(o).regc(self.hdr(o).gc_field() | 2).0);
            HeapView { ssb: h.ssb.push(o as usize), ..h }
        }
    }

    /// The write barrier: an old object that gets a young pointer is
    /// remembered.
    pub open spec fn barrier(self, o: int, v: Value) -> HeapView {
        if v.tagged_ptr() && self.young(v.addr()) && self.tenured(o) {
            self.remembered(o)
        } else {
            self
        }
    }

    /// A slot store followed by the write barrier.
    pub open spec fn store(self, o: int, i: int, v: Value) -> HeapView {
        self.set_slot(o, i, v).barrier(o, v)
    }

    // --- Objects ---
    pub open spec fn hdr(self, o: int) -> Header {
        Header(self.read(o))
    }

    /// The slot count lives in the overflow word.
    pub open spec fn has_over(self, o: int) -> bool {
        self.hdr(o).nslots_field() == 255
    }

    /// Slot count of the object at `o`.
    pub open spec fn nslots(self, o: int) -> u64 {
        if self.has_over(o) {
            self.read(o - 8)
        } else {
            self.hdr(o).nslots_field()
        }
    }

    /// The words that tell the object's size can be read.
    pub open spec fn sized(self, o: int) -> bool {
        self.plausible(o) && (self.has_over(o) ==> self.plausible(o - 8))
    }

    /// There is an object at `o` with at least `n` slots, and they lie in
    /// the space that holds its header.
    pub open spec fn shaped(self, o: int, n: int) -> bool {
        self.sized(o) && n <= self.nslots(o) && o + 8 + 8 * n <= self.limit_of(o)
    }

    /// There is an object at `o`, and all of it lies in one space.
    pub open spec fn whole(self, o: int) -> bool {
        self.shaped(o, self.nslots(o) as int)
    }

    pub open spec fn storage_start(self, o: int) -> int {
        if self.has_over(o) {
            o - 8
        } else {
            o
        }
    }

    /// Bytes the object takes, header and overflow word counted.
    pub open spec fn footprint(self, o: int) -> int {
        8 * self.nslots(o) + if self.has_over(o) {
            16int
        } else {
            8
        }
    }

    /// Slot `i` of the object at `o`.
    pub open spec fn slot(self, o: int, i: int) -> Value {
        Value(self.read(o + 8 + 8 * i))
    }

    pub open spec fn set_slot(self, o: int, i: int, v: Value) -> HeapView {
        self.write(o + 8 + 8 * i, v.0)
    }

    /// There is a byte object at `o`, all of it in one space.
    pub open spec fn bytes_ok(self, o: int) -> bool {
        self.whole(o) && self.hdr(o).byte_format() && self.byte_len(o) >= 0
    }

    /// Byte count of the object at `o`.
    pub open spec fn byte_len(self, o: int) -> int {
        8 * self.nslots(o) - (self.hdr(o).format_field() - 8)
    }

    pub open spec fn byte(self, o: int, i: int) -> u8 {
        byte_of(self.read(o + 8 + 8 * (i / 8)), i % 8)
    }

    pub open spec fn set_byte(self, o: int, i: int, b: u8) -> HeapView {
        let a = o + 8 + 8 * (i / 8);
        self.write(a, with_byte(self.read(a), i % 8, b))
    }

    /// The bytes of the object at `o`.
    pub open spec fn bytes(self, o: int) -> Seq<u8> {
        Seq::new(self.byte_len(o) as nat, |i: int| self.byte(o, i))
    }

    /// The heap after storing the first `n` bytes of `data` in order.
    pub open spec fn put_bytes(self, o: int, data: Seq<u8>, n: int) -> HeapView
        decreases n,
    {
        if n <= 0 {
            self
        } else {
            self.put_bytes(o, data, n - 1).set_byte(o, n - 1, data[n - 1])
        }
    }

    /// The `i`-th 32-bit instruction of the byte object at `o`.
    pub open spec fn insn(self, o: int, i: int) -> u32 {
        let w = self.read(o + 8 + 8 * (i / 2));
        if i % 2 == 0 {
            (w & 0xffff_ffff) as u32
        } else {
            (w >> 32u64) as u32
        }
    }

    pub open spec fn immutable(self, o: int) -> bool {
        self.hdr(o).gc_field() & 128 != 0
    }

    pub open spec fn made_immutable(self, o: int) -> HeapView {
        self.write(o, self.hdr(o).regc(self.hdr(o).gc_field() | 128).0)
    }

    // --- Allocation ---
    /// An object of `n` slots goes straight to old space.
    pub open spec fn large(self, n: int) -> bool {
        8 * n > self.config.large_object_bytes || 8 * (n + 2) > self.config.young_bytes
    }

    /// Allocate in young space: the heap afterwards and the object's address.
    pub open spec fn alloc_young(
        self,
        class_index: u32,
        format: u64,
        n: int,
        fill: Option<u64>,
    ) -> Option<(HeapView, int)> {
        if self.from.fits(words_for(n)) {
            Some(
                (
                    HeapView {
                        from: self.from.carved(class_index as u64, format, n, fill),
                        young_count: self.young_count.wrapping_add(1),
                        young_bytes: self.young_bytes.wrapping_add((8 * words_for(n)) as u64),
                        ..self
                    },
                    self.from.carved_at(n),
                ),
            )
        } else {
            None
        }
    }

    /// Allocate in old space: the heap afterwards and the object's address.
    pub open spec fn alloc_old(
        self,
        class_index: u32,
        format: u64,
        n: int,
        fill: Option<u64>,
        large: bool,
    ) -> Option<(HeapView, int)> {
        if self.old.fits(words_for(n)) {
            Some(
                (
                    HeapView {
                        old: self.old.carved(class_index as u64, format, n, fill),
                        old_count: self.old_count.wrapping_add(1),
                        old_bytes: self.old_bytes.wrapping_add((8 * words_for(n)) as u64),
                        large_count: self.large_count.wrapping_add(
                            if large {
                                1
                            } else {
                                0
                            },
                        ),
                        ..self
                    },
                    self.old.carved_at(n),
                ),
            )
        } else {
            None
        }
    }

    /// Allocate in young space, or in old space when the object is large.
    pub open spec fn alloc_any(
        self,
        class_index: u32,
        format: u64,
        n: int,
        fill: Option<u64>,
    ) -> Option<(HeapView, int)> {
        if self.large(n) {
            self.alloc_old(class_index, format, n, fill, true)
        } else {
            self.alloc_young(class_index, format, n, fill)
        }
    }

    /// The headers of the objects in `[p, top)` in address order, or `None`
    /// where the region does not hold whole objects one after the other.
    ///
    /// A header always has a nonzero class index, and overflow words never
    /// reach the class bits: a word without class bits is an overflow word
    /// and the header follows it.
    pub open spec fn walk(self, p: int, top: int) -> Option<Seq<usize>>
        decreases
            (if p < top {
                top - p
            } else {
                0
            }),
    {
        if p >= top {
            Some(Seq::empty())
        } else if !self.plausible(p) {
            None
        } else {
            let obj = if self.read(p) >> 42u64 == 0 {
                p + 8
            } else {
                p
            };
            if !self.whole(obj) {
                None
            } else {
                let next = self.storage_start(obj) + self.footprint(obj);
                if next <= p {
                    None
                } else {
                    match self.walk(next, top) {
                        None => None,
                        Some(rest) => Some(seq![obj as usize] + rest),
                    }
                }
            }
        }
    }
}

/// The young semispaces, old space, and the remembered set.
pub struct Heap {
    pub young_from: Space,
    pub young_to: Space,
    pub old: Space,
    /// Addresses of old objects with the remembered bit set: they may hold
    /// young pointers. Drained by every scavenge.
    pub ssb: Vec<usize>,
    pub config: HeapConfig,
    // Mutator allocation counters; collector copies bypass them.
    pub alloc_young_count: u64,
    pub alloc_young_bytes: u64,
    pub alloc_old_count: u64,
    pub alloc_old_bytes: u64,
    pub alloc_large_count: u64,
}

impl View for Heap {
    type V = HeapView;

    open spec fn view(&self) -> HeapView {
        HeapView {
            from: self.young_from@,
            to: self.young_to@,
            old: self.old@,
            ssb: self.ssb@,
            config: self.config,
            young_count: self.alloc_young_count,
            young_bytes: self.alloc_young_bytes,
            old_count: self.alloc_old_count,
            old_bytes: self.alloc_old_bytes,
            large_count: self.alloc_large_count,
        }
    }
}

impl HeapView {
    /// The heap that a configuration starts with: three zeroed spaces one
    /// after the other, nothing allocated, nothing remembered.
    pub open spec fn fresh(config: HeapConfig) -> HeapView {
        let y = (config.young_bytes / 8) as nat;
        let o = (config.old_bytes / 8) as nat;
        HeapView {
            from: SpaceView { base: FIRST_SPACE_BASE as int, mem: zero_words(y), alloc: 0 },
            to: SpaceView { base: FIRST_SPACE_BASE + 8 * y, mem: zero_words(y), alloc: 0 },
            old: SpaceView { base: FIRST_SPACE_BASE + 16 * y, mem: zero_words(o), alloc: 0 },
            ssb: Seq::empty(),
            config,
            young_count: 0,
            young_bytes: 0,
            old_count: 0,
            old_bytes: 0,
            large_count: 0,
        }
    }
}

impl Heap {
    pub open spec fn wf(&self) -> bool {
        self@.wf()
    }

    #[verifier::spinoff_prover]
    pub fn new(config: HeapConfig) -> (h: Heap)
        requires
            config.addressable(),
        ensures
            h.wf(),
            h@ == HeapView::fresh(config),
    {
        let y: usize = config.young_bytes / 8;
        let base: usize = FIRST_SPACE_BASE;
        let young_from = Space::at_base(base, config.young_bytes);
        let young_to = Space::at_base(base + 8 * y, config.young_bytes);
        let old = Space::at_base(base + 16 * y, config.old_bytes);
        let ghost fresh = HeapView::fresh(config);
        assert(young_from@ == fresh.from);
        assert(young_to@ == fresh.to);
        assert(old@ == fresh.old);
        let h = Heap {
            young_from,
            young_to,
            old,
            ssb: Vec::new(),
            config,
            alloc_young_count: 0,
            alloc_young_bytes: 0,
            alloc_old_count: 0,
            alloc_old_bytes: 0,
            alloc_large_count: 0,
        };
        assert(h@.ssb =~= fresh.ssb);
        h
    }

    // --- Raw word access ---
    /// The word at an address, as a 64-bit address.
    pub(crate) fn word_at(&self, a: u64) -> (w: u64)
        requires
            self.wf(),
            self@.plausible(a as int),
        ensures
            w == self@.read(a as int),
    {
        reveal(HeapView::read);
        if a >= self.young_from.base() as u64 && a < self.young_from.limit() as u64 {
            self.young_from.get(a)
        } else if a >= self.young_to.base() as u64 && a < self.young_to.limit() as u64 {
            self.young_to.get(a)
        } else {
            self.old.get(a)
        }
    }

    pub(crate) fn set_word_at(&mut self, a: u64, w: u64)
        requires
            old(self).wf(),
            old(self)@.plausible(a as int),
        ensures
            final(self).wf(),
            final(self)@.layout() == old(self)@.layout(),
            final(self)@ == old(self)@.write(a as int, w),
    {
        reveal(HeapView::write);
        if a >= self.young_from.base() as u64 && a < self.young_from.limit() as u64 {
            self.young_from.set(a, w);
        } else if a >= self.young_to.base() as u64 && a < self.young_to.limit() as u64 {
            self.young_to.set(a, w);
        } else {
            self.old.set(a, w);
        }
    }

    /// Whether `a` is the address of a word of some space.
    pub(crate) fn plausible_at(&self, a: u64) -> (b: bool)
        requires
            self.wf(),
        ensures
            b == self@.plausible(a as int),
    {
        a % 8 == 0 && ((a >= self.young_from.base() as u64 && a < self.young_from.limit() as u64)
            || (a >= self.young_to.base() as u64 && a < self.young_to.limit() as u64) || (a
            >= self.old.base() as u64 && a < self.old.limit() as u64))
    }

    /// The word at an address of the heap.
    pub fn word(&self, addr: usize) -> (w: u64)
        requires
            self.wf(),
            self@.plausible(addr as int),
        ensures
            w == self@.read(addr as int),
    {
        self.word_at(addr as u64)
    }

    /// Store a word at an address of the heap.
    pub fn set_word(&mut self, addr: usize, w: u64)
        requires
            old(self).wf(),
            old(self)@.plausible(addr as int),
        ensures
            final(self).wf(),
            final(self)@.layout() == old(self)@.layout(),
            final(self)@ == old(self)@.write(addr as int, w),
    {
        self.set_word_at(addr as u64, w);
    }

    pub fn plausible(&self, addr: usize) -> (b: bool)
        requires
            self.wf(),
        ensures
            b == self@.plausible(addr as int),
    {
        self.plausible_at(addr as u64)
    }

    // --- Headers and object shape ---
    pub fn header(&self, obj: usize) -> (h: Header)
        requires
            self.wf(),
            self@.plausible(obj as int),
        ensures
            h == self@.hdr(obj as int),
    {
        Header::from_raw(self.word(obj))
    }

    pub fn set_header(&mut self, obj: usize, h: Header)
        requires
            old(self).wf(),
            old(self)@.plausible(obj as int),
        ensures
            final(self).wf(),
            final(self)@.layout() == old(self)@.layout(),
            final(self)@ == old(self)@.write(obj as int, h.0),
    {
        self.set_word(obj, h.raw());
    }

    /// True slot count, reading the overflow word when the field says 255.
    pub fn num_slots(&self, obj: usize) -> (n: u64)
        requires
            self.wf(),
            self@.sized(obj as int),
        ensures
            n == self@.nslots(obj as int),
    {
        let f: u64 = self.header(obj).num_slots_field();
        if f == HDR_NSLOTS_OVERFLOW {
            self.word(obj - 8)
        } else {
            f
        }
    }

    /// Whether this object's header is preceded by an overflow size word.
    pub fn has_overflow_word(&self, obj: usize) -> (b: bool)
        requires
            self.wf(),
            self@.plausible(obj as int),
        ensures
            b == self@.has_over(obj as int),
    {
        self.header(obj).num_slots_field() == HDR_NSLOTS_OVERFLOW
    }

    /// Body byte size of a byte object: eight per slot, less the padding.
    pub fn byte_size(&self, obj: usize) -> (n: usize)
        requires
            self.wf(),
            self@.bytes_ok(obj as int),
        ensures
            n == self@.byte_len(obj as int),
    {
        let h = self.header(obj);
        let pad: usize = (h.format() - FMT_BYTES_BASE) as usize;
        (self.num_slots(obj) as usize) * 8 - pad
    }

    /// Total footprint in bytes including header and overflow word.
    pub fn footprint(&self, obj: usize) -> (n: usize)
        requires
            self.wf(),
            self@.whole(obj as int),
        ensures
            n == self@.footprint(obj as int),
    {
        let over: usize = if self.has_overflow_word(obj) {
            8
        } else {
            0
        };
        8 + (self.num_slots(obj) as usize) * 8 + over
    }

    /// Start of the object's storage: the overflow word if there is one,
    /// else the header.
    pub fn storage_start(&self, obj: usize) -> (a: usize)
        requires
            self.wf(),
            self@.sized(obj as int),
        ensures
            a == self@.storage_start(obj as int),
    {
        if self.has_overflow_word(obj) {
            obj - 8
        } else {
            obj
        }
    }

    /// Whether there is an object with at least `n` slots at the address a
    /// value denotes.
    pub(crate) fn shaped(&self, v: Value, n: usize) -> (b: bool)
        requires
            self.wf(),
        ensures
            b == self@.shaped(v.addr(), n as int),
    {
        let a: u64 = v.0;
        if !self.plausible_at(a) {
            return false;
        }
        let f: u64 = Header::from_raw(self.word_at(a)).num_slots_field();
        let count: u64 = if f == HDR_NSLOTS_OVERFLOW {
            if a < 8 || !self.plausible_at(a - 8) {
                return false;
            }
            self.word_at(a - 8)
        } else {
            f
        };
        if n as u64 > count {
            return false;
        }
        let limit: u64 = self.limit_at(a);
        n as u64 <= (limit - a - 8) / 8
    }

    fn limit_at(&self, a: u64) -> (l: u64)
        requires
            self.wf(),
            self@.plausible(a as int),
        ensures
            l == self@.limit_of(a as int),
            l >= a + 8,
    {
        if a >= self.young_from.base() as u64 && a < self.young_from.limit() as u64 {
            self.young_from.limit() as u64
        } else if a >= self.young_to.base() as u64 && a < self.young_to.limit() as u64 {
            self.young_to.limit() as u64
        } else {
            self.old.limit() as u64
        }
    }

    /// Whether there is an object at the address a value denotes with all of
    /// its slots in one space.
    pub(crate) fn whole(&self, v: Value) -> (b: bool)
        requires
            self.wf(),
        ensures
            b == self@.whole(v.addr()),
    {
        let a: u64 = v.0;
        if !self.plausible_at(a) {
            return false;
        }
        let f: u64 = Header::from_raw(self.word_at(a)).num_slots_field();
        let count: u64 = if f == HDR_NSLOTS_OVERFLOW {
            if a < 8 || !self.plausible_at(a - 8) {
                return false;
            }
            self.word_at(a - 8)
        } else {
            f
        };
        let limit: u64 = self.limit_at(a);
        count <= (limit - a - 8) / 8
    }

    /// Whether there is a byte object at the address a value denotes.
    pub(crate) fn bytes_ok(&self, v: Value) -> (b: bool)
        requires
            self.wf(),
        ensures
            b == self@.bytes_ok(v.addr()),
    {
        if !self.whole(v) {
            return false;
        }
        let h = self.header_of(v);
        h.is_bytes() && 8 * self.count_of(v) >= h.format() - FMT_BYTES_BASE
    }

    /// Header of the object a value denotes.
    pub(crate) fn header_of(&self, v: Value) -> (h: Header)
        requires
            self.wf(),
            self@.plausible(v.addr()),
        ensures
            h == self@.hdr(v.addr()),
    {
        Header::from_raw(self.word_at(v.0))
    }

    /// Slot count of the object a value denotes.
    pub(crate) fn count_of(&self, v: Value) -> (n: u64)
        requires
            self.wf(),
            self@.sized(v.addr()),
        ensures
            n == self@.nslots(v.addr()),
    {
        let f: u64 = self.header_of(v).num_slots_field();
        if f == HDR_NSLOTS_OVERFLOW {
            self.word_at(v.0 - 8)
        } else {
            f
        }
    }

    /// Slot `i` of the object a value denotes.
    pub(crate) fn peek(&self, v: Value, i: usize) -> (r: Value)
        requires
            self.wf(),
            self@.plausible(v.addr() + 8 + 8 * i),
        ensures
            r == self@.slot(v.addr(), i as int),
    {
        Value(self.word_at(v.0 + 8 + 8 * i as u64))
    }

    /// Store slot `i` of the object a value denotes.
    pub(crate) fn poke(&mut self, v: Value, i: usize, x: Value)
        requires
            old(self).wf(),
            old(self)@.plausible(v.addr() + 8 + 8 * i),
        ensures
            final(self).wf(),
            final(self)@.layout() == old(self)@.layout(),
            final(self)@ == old(self)@.set_slot(v.addr(), i as int, x),
    {
        self.set_word_at(v.0 + 8 + 8 * i as u64, x.0);
    }

    /// Add the object a value denotes to the remembered set, once.
    pub(crate) fn remember(&mut self, v: Value)
        requires
            old(self).wf(),
            old(self)@.plausible(v.addr()),
        ensures
            final(self).wf(),
            final(self)@.layout() == old(self)@.layout(),
            final(self)@ == old(self)@.remembered(v.addr()),
    {
        let h = self.header_of(v);
        let g: u64 = h.gc_bits();
        if g & GC_BIT_REMEMBERED == 0 {
            assert(g | 2 <= 255) by (bit_vector)
                requires
                    g <= 255,
            ;
            self.set_word_at(v.0, h.with_gc_bits(g | GC_BIT_REMEMBERED).raw());
            self.ssb.push(v.0 as usize);
        }
    }

    /// The write barrier for a store of `x` into the object `v` denotes.
    pub(crate) fn barrier(&mut self, v: Value, x: Value)
        requires
            old(self).wf(),
            old(self)@.plausible(v.addr()),
        ensures
            final(self).wf(),
            final(self)@.layout() == old(self)@.layout(),
            final(self)@ == old(self)@.barrier(v.addr(), x),
    {
        if x.is_ptr() && self.young(x) && self.tenured(v) {
            self.remember(v);
        }
    }

    /// Store slot `i` of the object `v` denotes, with the write barrier.
    pub(crate) fn store(&mut self, v: Value, i: usize, x: Value)
        requires
            old(self).wf(),
            old(self)@.plausible(v.addr()),
            old(self)@.plausible(v.addr() + 8 + 8 * i),
        ensures
            final(self).wf(),
            final(self)@.layout() == old(self)@.layout(),
            final(self)@ == old(self)@.store(v.addr(), i as int, x),
    {
        self.poke(v, i, x);
        self.barrier(v, x);
    }

    /// The headers of the objects in `[base, top)` in address order; `None`
    /// where the region does not hold whole objects one after the other.
    pub fn walk_region(&self, base: usize, top: usize) -> (r: Option<Vec<usize>>)
        requires
            self.wf(),
        ensures
            r is Some == self@.walk(base as int, top as int) is Some,
            r is Some ==> r->0@ == self@.walk(base as int, top as int)->0,
    {
        let mut out: Vec<usize> = Vec::new();
        let mut p: u64 = base as u64;
        let t: u64 = top as u64;
        while p < t
            invariant
                self.wf(),
                t == top,
                self@.walk(base as int, top as int) == (match self@.walk(p as int, top as int) {
                    None => None,
                    Some(rest) => Some(out@ + rest),
                }),
            decreases
                    (if p < t {
                        t - p
                    } else {
                        0
                    }),
        {
            if !self.plausible_at(p) {
                return None;
            }
            let obj: u64 = if self.word_at(p) >> 42 == 0 {
                p + 8
            } else {
                p
            };
            let v = Value(obj);
            if !self.whole(v) {
                return None;
            }
            let n: u64 = self.count_of(v);
            let over = self.header_of(v).num_slots_field() == HDR_NSLOTS_OVERFLOW;
            let next: u64 = obj + 8 + 8 * n;
            if next <= p {
                return None;
            }
            proof {
                assert(next == self@.storage_start(obj as int) + self@.footprint(obj as int));
                if self@.walk(next as int, top as int) is Some {
                    let rest = self@.walk(next as int, top as int)->0;
                    assert(out@ + (seq![obj as usize] + rest) =~= out@.push(obj as usize) + rest);
                }
            }
            out.push(obj as usize);
            p = next;
        }
        proof {
            assert(self@.walk(p as int, top as int) == Some(Seq::<usize>::empty()));
            assert(out@ + Seq::<usize>::empty() =~= out@);
        }
        Some(out)
    }

    // --- Slot and byte access ---
    pub fn slot(&self, obj: usize, i: usize) -> (v: Value)
        requires
            self.wf(),
            self@.shaped(obj as int, i + 1),
        ensures
            v == self@.slot(obj as int, i as int),
    {
        Value::from_raw(self.word(obj + 8 + i * 8))
    }

    /// Slot store without the write barrier.
    pub fn set_slot_raw(&mut self, obj: usize, i: usize, v: Value)
        requires
            old(self).wf(),
            old(self)@.shaped(obj as int, i + 1),
        ensures
            final(self).wf(),
            final(self)@.layout() == old(self)@.layout(),
            final(self)@ == old(self)@.set_slot(obj as int, i as int, v),
    {
        self.set_word(obj + 8 + i * 8, v.raw());
    }

    pub fn byte(&self, obj: usize, i: usize) -> (b: u8)
        requires
            self.wf(),
            self@.bytes_ok(obj as int),
            i < self@.byte_len(obj as int),
        ensures
            b == self@.byte(obj as int, i as int),
    {
        let w: u64 = self.word(obj + 8 + (i / 8) * 8);
        let sh: u64 = 8 * ((i % 8) as u64);
        ((w >> sh) & 0xff) as u8
    }

    pub fn set_byte(&mut self, obj: usize, i: usize, b: u8)
        requires
            old(self).wf(),
            old(self)@.bytes_ok(obj as int),
            i < old(self)@.byte_len(obj as int),
        ensures
            final(self).wf(),
            final(self)@.layout() == old(self)@.layout(),
            final(self)@ == old(self)@.set_byte(obj as int, i as int, b),
    {
        self.poke_byte(Value(obj as u64), i, b);
    }

    /// Store byte `i` of the body of the object a value denotes.
    pub(crate) fn poke_byte(&mut self, v: Value, i: usize, b: u8)
        requires
            old(self).wf(),
            old(self)@.plausible(v.addr() + 8 + 8 * (i / 8)),
        ensures
            final(self).wf(),
            final(self)@.layout() == old(self)@.layout(),
            final(self)@ == old(self)@.set_byte(v.addr(), i as int, b),
    {
        let a: u64 = v.0 + 8 + 8 * ((i / 8) as u64);
        let w: u64 = self.word_at(a);
        let sh: u64 = 8 * ((i % 8) as u64);
        self.set_word_at(a, (w & !(0xffu64 << sh)) | ((b as u64) << sh));
    }

    /// The `i`-th 32-bit instruction of a bytecodes object.
    pub fn insn_at(&self, obj: usize, i: usize) -> (w: u32)
        requires
            self.wf(),
            self@.bytes_ok(obj as int),
            4 * i + 4 <= self@.byte_len(obj as int),
        ensures
            w == self@.insn(obj as int, i as int),
    {
        self.fetch(Value(obj as u64), i)
    }

    /// The `i`-th 32-bit instruction of the object a value denotes.
    pub(crate) fn fetch(&self, v: Value, i: usize) -> (w: u32)
        requires
            self.wf(),
            self@.plausible(v.addr() + 8 + 8 * (i / 2)),
        ensures
            w == self@.insn(v.addr(), i as int),
    {
        let w: u64 = self.word_at(v.0 + 8 + 8 * ((i / 2) as u64));
        if i % 2 == 0 {
            (w & 0xffff_ffff) as u32
        } else {
            (w >> 32) as u32
        }
    }

    /// The bytes of a byte object.
    pub fn bytes(&self, obj: usize) -> (data: Vec<u8>)
        requires
            self.wf(),
            self@.bytes_ok(obj as int),
        ensures
            data@ == self@.bytes(obj as int),
    {
        let len: usize = self.byte_size(obj);
        let mut out: Vec<u8> = Vec::new();
        let mut i: usize = 0;
        while i < len
            invariant
                i <= len,
                self.wf(),
                self@.bytes_ok(obj as int),
                len == self@.byte_len(obj as int),
                out@.len() == i,
                forall|j: int| 0 <= j < i ==> out@[j] == self@.byte(obj as int, j),
            decreases len - i,
        {
            out.push(self.byte(obj, i));
            i = i + 1;
        }
        assert(out@ =~= self@.bytes(obj as int));
        out
    }

    /// Store bytes at the start of a byte object's body.
    pub fn write_bytes(&mut self, obj: usize, data: &[u8])
        requires
            old(self).wf(),
            old(self)@.bytes_ok(obj as int),
            data@.len() <= old(self)@.byte_len(obj as int),
        ensures
            final(self).wf(),
            final(self)@.layout() == old(self)@.layout(),
            final(self)@ == old(self)@.put_bytes(obj as int, data@, data@.len() as int),
    {
        let v = Value(obj as u64);
        self.poke_bytes(v, data);
    }

    /// Store bytes at the start of the body of the object a value denotes.
    pub(crate) fn poke_bytes(&mut self, v: Value, data: &[u8])
        requires
            old(self).wf(),
            old(self)@.plausible(v.addr()),
            v.addr() + 8 + data@.len() <= old(self)@.limit_of(v.addr()),
        ensures
            final(self).wf(),
            final(self)@.layout() == old(self)@.layout(),
            final(self)@ == old(self)@.put_bytes(v.addr(), data@, data@.len() as int),
    {
        let n: usize = data.len();
        let mut i: usize = 0;
        let ghost h0 = self@;
        while i < n
            invariant
                i <= n,
                n == data@.len(),
                self.wf(),
                h0 == old(self)@,
                h0.wf(),
                h0.plausible(v.addr()),
                v.addr() + 8 + n <= h0.limit_of(v.addr()),
                self@.layout() == h0.layout(),
                self@ == h0.put_bytes(v.addr(), data@, i as int),
            decreases n - i,
        {
            assert(self@.plausible(v.addr() + 8 + 8 * (i as int / 8)));
            self.poke_byte(v, i, data[i]);
            i = i + 1;
        }
    }

    // --- Immutability ---
    pub fn is_immutable(&self, obj: usize) -> (b: bool)
        requires
            self.wf(),
            self@.plausible(obj as int),
        ensures
            b == self@.immutable(obj as int),
    {
        self.header(obj).gc_bits() & GC_BIT_IMMUTABLE != 0
    }

    pub fn set_immutable(&mut self, obj: usize)
        requires
            old(self).wf(),
            old(self)@.plausible(obj as int),
        ensures
            final(self).wf(),
            final(self)@.layout() == old(self)@.layout(),
            final(self)@ == old(self)@.made_immutable(obj as int),
    {
        let h = self.header(obj);
        let g: u64 = h.gc_bits();
        proof {
            lemma_immutable_bits(g);
        }
        self.set_header(obj, h.with_gc_bits(g | GC_BIT_IMMUTABLE));
    }

    // --- Space predicates ---
    pub fn is_young(&self, addr: usize) -> (b: bool)
        requires
            self.wf(),
        ensures
            b == self@.young(addr as int),
    {
        self.young_from.contains(addr)
    }

    pub fn in_old_space(&self, addr: usize) -> (b: bool)
        requires
            self.wf(),
        ensures
            b == self@.tenured(addr as int),
    {
        self.old.contains(addr)
    }

    /// Whether a value denotes an address in the young from-space.
    pub(crate) fn young(&self, v: Value) -> (b: bool)
        requires
            self.wf(),
        ensures
            b == self@.young(v.addr()),
    {
        v.0 >= self.young_from.base() as u64 && v.0 < self.young_from.limit() as u64
    }

    /// Whether a value denotes an address in old space.
    pub(crate) fn tenured(&self, v: Value) -> (b: bool)
        requires
            self.wf(),
        ensures
            b == self@.tenured(v.addr()),
    {
        v.0 >= self.old.base() as u64 && v.0 < self.old.limit() as u64
    }

    // --- Allocation ---
    fn alloc_footprint(nslots: usize) -> (n: u64)
        requires
            words_for(nslots as int) * 8 <= u64::MAX,
        ensures
            n == 8 * words_for(nslots as int),
    {
        let extra: u64 = if nslots >= HDR_NSLOTS_OVERFLOW as usize {
            1
        } else {
            0
        };
        (extra + 1 + nslots as u64) * 8
    }

    fn is_large(&self, nslots: usize) -> (b: bool)
        ensures
            b == self@.large(nslots as int),
    {
        let y: usize = self.config.young_bytes / 8;
        nslots > self.config.large_object_bytes / 8 || y < 2 || nslots > y - 2
    }

    pub(crate) fn alloc_in_young(
        &mut self,
        class_index: u32,
        format: u64,
        nslots: usize,
        fill: Option<u64>,
    ) -> (r: Option<usize>)
        requires
            old(self).wf(),
            class_index <= MAX_CLASS_INDEX,
            format <= 15,
        ensures
            final(self).wf(),
            final(self)@.layout() == old(self)@.layout(),
            alloc_result(
                old(self)@,
                old(self)@.alloc_young(class_index, format, nslots as int, fill),
                r,
                final(self)@,
            ),
    {
        let r = self.young_from.carve(class_index, format, nslots, fill);
        if r.is_some() {
            self.alloc_young_count = self.alloc_young_count.wrapping_add(1);
            self.alloc_young_bytes = self.alloc_young_bytes.wrapping_add(
                Self::alloc_footprint(nslots),
            );
        }
        r
    }

    pub(crate) fn alloc_in_old(
        &mut self,
        class_index: u32,
        format: u64,
        nslots: usize,
        fill: Option<u64>,
        large: bool,
    ) -> (r: Option<usize>)
        requires
            old(self).wf(),
            class_index <= MAX_CLASS_INDEX,
            format <= 15,
        ensures
            final(self).wf(),
            final(self)@.layout() == old(self)@.layout(),
            alloc_result(
                old(self)@,
                old(self)@.alloc_old(class_index, format, nslots as int, fill, large),
                r,
                final(self)@,
            ),
    {
        let r = self.old.carve(class_index, format, nslots, fill);
        if r.is_some() {
            self.alloc_old_count = self.alloc_old_count.wrapping_add(1);
            self.alloc_old_bytes = self.alloc_old_bytes.wrapping_add(Self::alloc_footprint(nslots));
            self.alloc_large_count = self.alloc_large_count.wrapping_add(
                if large {
                    1
                } else {
                    0
                },
            );
        }
        r
    }

    /// Allocate in young space, or in old space directly for large objects.
    pub(crate) fn alloc_body(
        &mut self,
        class_index: u32,
        format: u64,
        nslots: usize,
        fill: Option<u64>,
    ) -> (r: Option<usize>)
        requires
            old(self).wf(),
            class_index <= MAX_CLASS_INDEX,
            format <= 15,
        ensures
            final(self).wf(),
            final(self)@.layout() == old(self)@.layout(),
            alloc_result(
                old(self)@,
                old(self)@.alloc_any(class_index, format, nslots as int, fill),
                r,
                final(self)@,
            ),
    {
        if self.is_large(nslots) {
            self.alloc_in_old(class_index, format, nslots, fill, true)
        } else {
            self.alloc_in_young(class_index, format, nslots, fill)
        }
    }

    /// Fixed-format object, every slot set to `fill`. `None` when young space
    /// (old space for a large object) is exhausted.
    pub fn alloc_fixed(&mut self, class_index: u32, nslots: usize, fill: Value) -> (r: Option<
        usize,
    >)
        requires
            old(self).wf(),
            class_index <= MAX_CLASS_INDEX,
        ensures
            final(self).wf(),
            final(self)@.layout() == old(self)@.layout(),
            alloc_result(
                old(self)@,
                old(self)@.alloc_any(class_index, FMT_FIXED, nslots as int, Some(fill.0)),
                r,
                final(self)@,
            ),
    {
        self.alloc_body(class_index, FMT_FIXED, nslots, Some(fill.raw()))
    }

    /// Pointer-format object, every slot set to `fill`.
    pub fn alloc_ptrs(&mut self, class_index: u32, nslots: usize, fill: Value) -> (r: Option<usize>)
        requires
            old(self).wf(),
            class_index <= MAX_CLASS_INDEX,
        ensures
            final(self).wf(),
            final(self)@.layout() == old(self)@.layout(),
            alloc_result(
                old(self)@,
                old(self)@.alloc_any(class_index, FMT_PTRS, nslots as int, Some(fill.0)),
                r,
                final(self)@,
            ),
    {
        self.alloc_body(class_index, FMT_PTRS, nslots, Some(fill.raw()))
    }

    /// Byte-format object; the body keeps the words that lie there, which
    /// are zero in a space that has been used by allocation alone.
    pub fn alloc_bytes(&mut self, class_index: u32, byte_len: usize) -> (r: Option<usize>)
        requires
            old(self).wf(),
            class_index <= MAX_CLASS_INDEX,
        ensures
            final(self).wf(),
            final(self)@.layout() == old(self)@.layout(),
            alloc_result(
                old(self)@,
                old(self)@.alloc_any(
                    class_index,
                    byte_format_for(byte_len as int),
                    slots_for(byte_len as int),
                    None,
                ),
                r,
                final(self)@,
            ),
    {
        let (nslots, format) = byte_shape(byte_len);
        self.alloc_body(class_index, format, nslots, None)
    }

    /// Fixed-format object in old space.
    pub fn alloc_fixed_old(&mut self, class_index: u32, nslots: usize, fill: Value) -> (r: Option<
        usize,
    >)
        requires
            old(self).wf(),
            class_index <= MAX_CLASS_INDEX,
        ensures
            final(self).wf(),
            final(self)@.layout() == old(self)@.layout(),
            alloc_result(
                old(self)@,
                old(self)@.alloc_old(class_index, FMT_FIXED, nslots as int, Some(fill.0), false),
                r,
                final(self)@,
            ),
    {
        self.alloc_in_old(class_index, FMT_FIXED, nslots, Some(fill.raw()), false)
    }

    /// Pointer-format object in old space.
    pub fn alloc_ptrs_old(&mut self, class_index: u32, nslots: usize, fill: Value) -> (r: Option<
        usize,
    >)
        requires
            old(self).wf(),
            class_index <= MAX_CLASS_INDEX,
        ensures
            final(self).wf(),
            final(self)@.layout() == old(self)@.layout(),
            alloc_result(
                old(self)@,
                old(self)@.alloc_old(class_index, FMT_PTRS, nslots as int, Some(fill.0), false),
                r,
                final(self)@,
            ),
    {
        self.alloc_in_old(class_index, FMT_PTRS, nslots, Some(fill.raw()), false)
    }

    /// Byte-format object in old space.
    pub fn alloc_bytes_old(&mut self, class_index: u32, byte_len: usize) -> (r: Option<usize>)
        requires
            old(self).wf(),
            class_index <= MAX_CLASS_INDEX,
        ensures
            final(self).wf(),
            final(self)@.layout() == old(self)@.layout(),
            alloc_result(
                old(self)@,
                old(self)@.alloc_old(
                    class_index,
                    byte_format_for(byte_len as int),
                    slots_for(byte_len as int),
                    None,
                    false,
                ),
                r,
                final(self)@,
            ),
    {
        let (nslots, format) = byte_shape(byte_len);
        self.alloc_in_old(class_index, format, nslots, None, false)
    }
}

/// What an allocation answers and leaves behind: the address and heap that
/// `planned` gives, or `None` and the heap as it was.
pub open spec fn alloc_result(
    before: HeapView,
    planned: Option<(HeapView, int)>,
    r: Option<usize>,
    after: HeapView,
) -> bool {
    match planned {
        Some((h, a)) => r == Some(a as usize) && a as usize == a && after == h,
        None => r is None && after == before,
    }
}

/// Slots that hold `len` bytes.
pub open spec fn slots_for(len: int) -> int {
    (len + 7) / 8
}

/// Format of a byte object of `len` bytes: eight plus the padding.
pub open spec fn byte_format_for(len: int) -> u64 {
    (8 + 8 * slots_for(len) - len) as u64
}

/// Slot count and format of a byte object of `byte_len` bytes.
pub(crate) fn byte_shape(byte_len: usize) -> (r: (usize, u64))
    ensures
        r.0 == slots_for(byte_len as int),
        r.1 == byte_format_for(byte_len as int),
        8 <= r.1 <= 15,
{
    let q: usize = byte_len / 8;
    let m: usize = byte_len % 8;
    if m == 0 {
        (q, FMT_BYTES_BASE)
    } else {
        (q + 1, FMT_BYTES_BASE + (8 - m as u64))
    }
}

} // verus!
