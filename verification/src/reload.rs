//! An image gives the machine back.

use crate::graph::{
    fin, headed, lemma_reads_after_write, lemma_tiles_kept, lemma_tiles_more, lemma_within, listed,
    same_fields, same_size, tiles,
};
use crate::heap::{Header, HeapConfig, HeapView, MAX_CLASS_INDEX};
use crate::image::{ImageHead, LoadView};
use crate::symbols::{lemma_tabled, lemma_tables_moved, lemma_tables_same, tables_of};
use crate::treaty::{
    CLASS_ARRAY, FMT_PTRS, IMG_HEADER_SIZE, IMG_MAGIC, SPECIAL_CLASS_LIST, SPECIAL_OBJECTS_COUNT,
};
use crate::value::Value;
use crate::vm::{Fault, VmConfig, VmView};
use vstd::prelude::*;

verus! {

// ---------------------------------------------------------------------------
// Reading the bytes back
// ---------------------------------------------------------------------------
/// The bytes of the magic number and of the version read back.
proof fn lemma_head_words()
    ensures
        (((IMG_MAGIC as u64 >> 0u64) & 0xff) as u8) as u32 | (((((IMG_MAGIC as u64 >> 8u64) & 0xff)
            as u8) as u32) << 8u32) | (((((IMG_MAGIC as u64 >> 16u64) & 0xff) as u8) as u32)
            << 16u32) | (((((IMG_MAGIC as u64 >> 24u64) & 0xff) as u8) as u32) << 24u32)
            == IMG_MAGIC,
        (((1u64 >> 0u64) & 0xff) as u8) as u32 | (((((1u64 >> 8u64) & 0xff) as u8) as u32) << 8u32)
            | (((((1u64 >> 16u64) & 0xff) as u8) as u32) << 16u32) | (((((1u64 >> 24u64) & 0xff)
            as u8) as u32) << 24u32) == 1,
{
    assert((((0x4D495453u64 >> 0u64) & 0xff) as u8) as u32 | (((((0x4D495453u64 >> 8u64) & 0xff)
        as u8) as u32) << 8u32) | (((((0x4D495453u64 >> 16u64) & 0xff) as u8) as u32) << 16u32) | ((
    (((0x4D495453u64 >> 24u64) & 0xff) as u8) as u32) << 24u32) == 0x4D495453u32 && ((((1u64
        >> 0u64) & 0xff) as u8) as u32 | (((((1u64 >> 8u64) & 0xff) as u8) as u32) << 8u32) | (((((
    1u64 >> 16u64) & 0xff) as u8) as u32) << 16u32) | (((((1u64 >> 24u64) & 0xff) as u8) as u32)
        << 24u32) == 1)) by (bit_vector);
}

/// A 32-bit number written as bytes reads back.
proof fn lemma_u32(data: Seq<u8>, off: int, w: u64)
    requires
        0 <= off,
        off + 4 <= data.len(),
        data.subrange(off, off + 4) == crate::image::le_bytes(w, 4),
    ensures
        crate::image::le_u32(data, off) == (((w >> 0u64) & 0xff) as u8) as u32 | (((((w >> 8u64)
            & 0xff) as u8) as u32) << 8u32) | (((((w >> 16u64) & 0xff) as u8) as u32) << 16u32) | ((
        (((w >> 24u64) & 0xff) as u8) as u32) << 24u32),
{
    assert forall|k: int| 0 <= k < 4 implies #[trigger] data[off + k] == crate::heap::byte_of(
        w,
        k,
    ) by {
        assert(data.subrange(off, off + 4)[k] == data[off + k]);
    }
    assert(data[off + 0] == crate::heap::byte_of(w, 0));
    assert(data[off + 1] == crate::heap::byte_of(w, 1));
    assert(data[off + 2] == crate::heap::byte_of(w, 2));
    assert(data[off + 3] == crate::heap::byte_of(w, 3));
}

/// The header of an image says where things are in it.
#[verifier::rlimit(60)]
#[verifier::spinoff_prover]
pub(crate) proof fn lemma_image_head(h: HeapView, sp: int, cl: int, active: int)
    requires
        h.wf(),
        h.old.base <= sp < h.old.top(),
        h.old.base <= cl < h.old.top(),
        h.old.base <= active < h.old.top(),
    ensures
        ({
            let data = h.image(sp, cl, active);
            &&& data.len() == IMG_HEADER_SIZE + 8 * h.old.alloc
            &&& crate::image::image_head(data) == Ok::<ImageHead, Fault>(
                ImageHead {
                    base: h.old.base as u64,
                    size: (8 * h.old.alloc) as u64,
                    specials: (sp - h.old.base) as u64,
                    classes: (cl - h.old.base) as u64,
                    active: (active - h.old.base) as u64,
                },
            )
        }),
{
    let data = h.image(sp, cl, active);
    let b = h.old.base;
    lemma_head_words();
    assert(data.subrange(0, 4) =~= crate::image::le_bytes(IMG_MAGIC as u64, 4));
    assert(data.subrange(4, 8) =~= crate::image::le_bytes(1, 4));
    assert(data.subrange(16, 24) =~= crate::image::le_bytes(b as u64, 8));
    assert(data.subrange(24, 32) =~= crate::image::le_bytes((8 * h.old.alloc) as u64, 8));
    assert(data.subrange(32, 40) =~= crate::image::le_bytes((sp - b) as u64, 8));
    assert(data.subrange(40, 48) =~= crate::image::le_bytes((cl - b) as u64, 8));
    assert(data.subrange(48, 56) =~= crate::image::le_bytes((active - b) as u64, 8));
    lemma_u32(data, 0, IMG_MAGIC as u64);
    lemma_u32(data, 4, 1);
    crate::image::law_word_round_trip(data, 16, b as u64);
    crate::image::law_word_round_trip(data, 24, (8 * h.old.alloc) as u64);
    crate::image::law_word_round_trip(data, 32, (sp - b) as u64);
    crate::image::law_word_round_trip(data, 40, (cl - b) as u64);
    crate::image::law_word_round_trip(data, 48, (active - b) as u64);
}

/// The body of an image holds the words of old space.
proof fn lemma_image_body(h: HeapView, sp: int, cl: int, active: int, k: int)
    requires
        h.wf(),
        0 <= k < h.old.alloc,
    ensures
        crate::heap::le_word(h.image(sp, cl, active), IMG_HEADER_SIZE + 8 * k) == h.old.mem[k],
{
    let data = h.image(sp, cl, active);
    let off = IMG_HEADER_SIZE + 8 * k;
    let body = crate::image::dumped(h.old.mem, h.old.alloc as nat);
    assert(data.len() == IMG_HEADER_SIZE + body.len());
    assert(data.subrange(off, off + 8) =~= crate::image::le_bytes(h.old.mem[k], 8)) by {
        assert forall|j: int| 0 <= j < 8 implies data.subrange(off, off + 8)[j]
            == #[trigger] crate::image::le_bytes(h.old.mem[k], 8)[j] by {
            assert(data[off + j] == body[8 * k + j]);
            assert((8 * k + j) / 8 == k && (8 * k + j) % 8 == j);
        }
    }
    crate::image::law_word_round_trip(data, off, h.old.mem[k]);
}

/// The heap that an image of whole words is read into.
proof fn lemma_whole_words(data: Seq<u8>, n: int, config: HeapConfig)
    requires
        0 <= n,
    ensures
        VmView::image_heap(data, 8 * n, config) == (HeapView {
            old: HeapView::fresh(crate::image::config_for(config, 8 * n)).old.filled_from(
                data,
                IMG_HEADER_SIZE as int,
                n,
            ),
            ..HeapView::fresh(crate::image::config_for(config, 8 * n))
        }),
{
    assert((8 * n) / 8 == n && (8 * n) % 8 == 0);
}

/// The heap that an image is read into holds its words.
#[verifier::rlimit(60)]
#[verifier::spinoff_prover]
proof fn lemma_image_heap(h: HeapView, sp: int, cl: int, active: int, config: HeapConfig)
    requires
        h.wf(),
        crate::image::image_fits(config, 8 * h.old.alloc),
    ensures
        ({
            let r = VmView::image_heap(h.image(sp, cl, active), 8 * h.old.alloc, config);
            &&& r.wf()
            &&& r.old.alloc == h.old.alloc
            &&& r.from.alloc == 0
            &&& r.to.alloc == 0
            &&& r.ssb.len() == 0
            &&& forall|x: int|
                x % 8 == 0 && r.old.base <= x < r.old.top() ==> #[trigger] r.read(x) == h.read(
                    x - r.old.base + h.old.base,
                )
        }),
{
    reveal(HeapView::read);
    let data = h.image(sp, cl, active);
    let size = 8 * h.old.alloc;
    lemma_whole_words(data, h.old.alloc, config);
    let r = VmView::image_heap(data, size, config);
    let c = crate::image::config_for(config, size);
    assert(c.old_bytes >= 2 * size);
    assert(r.old.mem.len() == c.old_bytes / 8);
    assert forall|x: int| x % 8 == 0 && r.old.base <= x < r.old.top() implies #[trigger] r.read(x)
        == h.read(x - r.old.base + h.old.base) by {
        let k = (x - r.old.base) / 8;
        assert(0 <= k < h.old.alloc);
        lemma_image_body(h, sp, cl, active, k);
        assert(r.old.mem[k] == crate::heap::le_word(data, IMG_HEADER_SIZE + 8 * k));
        assert((x - r.old.base + h.old.base - h.old.base) / 8 == k);
    }
}

// ---------------------------------------------------------------------------
// The objects of the loaded heap
// ---------------------------------------------------------------------------
/// A list of addresses moved from one base to another.
pub open spec fn rebased(objs: Seq<usize>, from: int, to: int) -> Seq<usize> {
    Seq::new(objs.len(), |i: int| (objs[i] - from + to) as usize)
}

/// Two heaps hold the same words of old space, at different bases.
pub open spec fn same_old(h: HeapView, r: HeapView) -> bool {
    &&& r.old.alloc == h.old.alloc
    &&& forall|x: int|
        x % 8 == 0 && r.old.base <= x < r.old.top() ==> #[trigger] r.read(x) == h.read(
            x - r.old.base + h.old.base,
        )
}

#[verifier::rlimit(60)]
proof fn lemma_rebased(h: HeapView, r: HeapView, objs: Seq<usize>)
    requires
        h.wf(),
        r.wf(),
        same_old(h, r),
        tiles(h, objs, h.old.base, h.old.top()),
        forall|i: int| 0 <= i < objs.len() ==> headed(h, (#[trigger] objs[i]) as int),
    ensures
        tiles(r, rebased(objs, h.old.base, r.old.base), r.old.base, r.old.top()),
        r.walk(r.old.base, r.old.top()) == Some(rebased(objs, h.old.base, r.old.base)),
        forall|i: int|
            0 <= i < objs.len() ==> rebased(objs, h.old.base, r.old.base)[i] == (
            #[trigger] objs[i]) - h.old.base + r.old.base,
{
    let d = r.old.base - h.old.base;
    let t = rebased(objs, h.old.base, r.old.base);
    assert forall|i: int| 0 <= i < objs.len() implies alike_at(h, r, (#[trigger] objs[i]) as int, d)
        && t[i] == objs[i] + d by {
        let o = objs[i] as int;
        assert(listed(objs, objs[i] as int));
        lemma_within(h, objs, h.old.base, h.old.top(), o);
        lemma_alike_at(h, r, o);
    }
    if objs.len() > 0 {
        assert(alike_at(h, r, objs[0] as int, d));
        assert(objs[objs.len() - 1] == objs.last());
        assert(alike_at(h, r, objs[objs.len() - 1] as int, d));
    }
    assert forall|i: int| 0 <= i < t.len() implies r.whole((#[trigger] t[i]) as int) && r.old.base
        <= r.storage_start(t[i] as int) && fin(r, t[i] as int) <= r.old.top() && headed(
        r,
        t[i] as int,
    ) by {
        assert(alike_at(h, r, objs[i] as int, d));
        assert(headed(h, objs[i] as int));
        assert(h.whole(objs[i] as int));
    }
    assert forall|i: int, j: int| 0 <= i < j < t.len() implies fin(r, (#[trigger] t[i]) as int)
        <= r.storage_start((#[trigger] t[j]) as int) by {
        assert(alike_at(h, r, objs[i] as int, d) && alike_at(h, r, objs[j] as int, d));
    }
    assert forall|i: int, j: int|
        0 <= i < t.len() && 0 <= j < t.len() && j == i + 1 implies fin(
        r,
        (#[trigger] t[i]) as int,
    ) == r.storage_start((#[trigger] t[j]) as int) by {
        assert(alike_at(h, r, objs[i] as int, d) && alike_at(h, r, objs[j] as int, d));
    }
    crate::sliding::lemma_walk(r, t, r.old.base, r.old.top());
}

/// The object at `o` in `h` is word for word at `o + d` in `r`.
pub open spec fn alike_at(h: HeapView, r: HeapView, o: int, d: int) -> bool {
    let n = o + d;
    &&& r.whole(n)
    &&& 0 <= n <= usize::MAX
    &&& r.hdr(n) == h.hdr(o)
    &&& r.nslots(n) == h.nslots(o)
    &&& r.storage_start(n) == h.storage_start(o) + d
    &&& h.has_over(o) ==> r.read(n - 8) == h.read(o - 8)
    &&& forall|i: int| 0 <= i < h.nslots(o) ==> #[trigger] r.slot(n, i) == h.slot(o, i)
}

proof fn lemma_alike_at(h: HeapView, r: HeapView, o: int)
    requires
        h.wf(),
        r.wf(),
        same_old(h, r),
        h.whole(o),
        h.old.base <= h.storage_start(o),
        fin(h, o) <= h.old.top(),
    ensures
        alike_at(h, r, o, r.old.base - h.old.base),
{
    let d = r.old.base - h.old.base;
    let n = o + d;
    assert(r.read(n) == h.read(n - r.old.base + h.old.base));
    if h.has_over(o) {
        assert(r.read(n - 8) == h.read(n - 8 - r.old.base + h.old.base));
    }
    assert(r.nslots(n) == h.nslots(o));
    assert forall|i: int| 0 <= i < h.nslots(o) implies #[trigger] r.slot(n, i) == h.slot(o, i) by {
        let x = n + 8 + 8 * i;
        assert(r.read(x) == h.read(x - r.old.base + h.old.base));
    }
}

// ---------------------------------------------------------------------------
// The pass over the loaded heap
// ---------------------------------------------------------------------------
/// What settling the object at `o` does.
pub open spec fn settled_ok(h: HeapView, r: HeapView, o: int, delta: u64) -> bool {
    &&& r.wf()
    &&& r.layout() == h.layout()
    &&& r.old.alloc == h.old.alloc
    &&& r.from.alloc == h.from.alloc
    &&& r.to.alloc == h.to.alloc
    &&& r.ssb == h.ssb
    &&& r.read(o) & 1 == 0
    &&& !r.is_remembered(o)
    &&& forall|x: int|
        h.plausible(x) && !(o <= x < fin(h, o)) ==> #[trigger] r.read(x) == h.read(x)
    &&& same_fields(h.hdr(o), r.hdr(o))
    &&& forall|i: int|
        0 <= i < h.nslots(o) ==> #[trigger] r.slot(o, i) == if h.hdr(o).byte_format() {
            h.slot(o, i)
        } else {
            crate::image::shifted(h.slot(o, i), delta)
        }
}

#[verifier::rlimit(60)]
proof fn lemma_shift_slots(h: HeapView, o: int, i: int, n: int, delta: u64)
    requires
        h.wf(),
        h.plausible(o),
        0 <= i <= n,
        o + 8 + 8 * n <= h.limit_of(o),
    ensures
        ({
            let r = h.shift_slots(o, i, n, delta);
            &&& r.wf()
            &&& r.layout() == h.layout()
            &&& r.old.alloc == h.old.alloc
            &&& r.from.alloc == h.from.alloc
            &&& r.to.alloc == h.to.alloc
            &&& r.ssb == h.ssb
            &&& forall|x: int|
                h.plausible(x) && !(o + 8 + 8 * i <= x < o + 8 + 8 * n) ==> #[trigger] r.read(x)
                    == h.read(x)
            &&& forall|k: int|
                i <= k < n ==> #[trigger] r.slot(o, k) == crate::image::shifted(
                    h.slot(o, k),
                    delta,
                )
        }),
    decreases n - i,
{
    if i < n {
        let v = h.slot(o, i);
        let x = o + 8 + 8 * i;
        assert(h.plausible(x));
        let w = crate::image::shifted(v, delta);
        let h1 = if v.tagged_ptr() {
            h.set_slot(o, i, w)
        } else {
            h
        };
        lemma_reads_after_write(h, x, w.0);
        lemma_shift_slots(h1, o, i + 1, n, delta);
        let r = h1.shift_slots(o, i + 1, n, delta);
        assert(h1.slot(o, i) == w);
        assert(h1.plausible(x));
        assert(r.read(x) == h1.read(x));
        assert forall|k: int| i <= k < n implies #[trigger] r.slot(o, k) == crate::image::shifted(
            h.slot(o, k),
            delta,
        ) by {
            if k > i {
                assert(h.plausible(o + 8 + 8 * k));
                assert(h1.slot(o, k) == h.slot(o, k));
            }
        }
        assert forall|y: int|
            h.plausible(y) && !(o + 8 + 8 * i <= y < o + 8 + 8 * n) implies #[trigger] r.read(y)
            == h.read(y) by {
            assert(h1.plausible(y));
            assert(h1.read(y) == h.read(y));
        }
    }
}

#[verifier::rlimit(60)]
pub(crate) proof fn lemma_settled(h: HeapView, o: int, delta: u64)
    requires
        h.wf(),
        h.whole(o),
    ensures
        settled_ok(h, h.settled(o, delta), o, delta),
{
    let hd = h.hdr(o);
    let g = hd.gc_field();
    crate::heap::lemma_header_update(hd, 0, 0);
    crate::sliding::lemma_landing_bits(g);
    crate::heap::lemma_header_update(hd, 0, g & !3u64);
    let w = hd.regc(g & !3u64).0;
    let h1 = if g & !3u64 != g {
        h.write(o, w)
    } else {
        h
    };
    lemma_reads_after_write(h, o, w);
    let n = h.nslots(o) as int;
    lemma_shift_slots(h1, o, 0, n, delta);
    let r = h.settled(o, delta);
    assert forall|i: int| 0 <= i < h.nslots(o) implies #[trigger] r.slot(o, i)
        == if hd.byte_format() {
        h.slot(o, i)
    } else {
        crate::image::shifted(h.slot(o, i), delta)
    } by {
        assert(h.plausible(o + 8 + 8 * i));
        assert(h1.slot(o, i) == h.slot(o, i));
    }
    assert forall|x: int| h.plausible(x) && !(o <= x < fin(h, o)) implies #[trigger] r.read(x)
        == h.read(x) by {
        assert(h1.plausible(x));
        assert(h1.read(x) == h.read(x));
    }
    assert(h1.plausible(o));
    assert(r.read(o) == h1.read(o));
    crate::graph::lemma_low_bit(h1.read(o));
}

/// What the pass over `objs[i..]` does.
pub open spec fn passed(h: HeapView, r: HeapView, objs: Seq<usize>, i: int, delta: u64) -> bool {
    &&& r.wf()
    &&& r.layout() == h.layout()
    &&& r.old.alloc == h.old.alloc
    &&& r.from.alloc == h.from.alloc
    &&& r.to.alloc == h.to.alloc
    &&& r.ssb == h.ssb
    &&& forall|k: int|
        0 <= k < objs.len() ==> if k < i {
            r.read(#[trigger] objs[k] as int) == h.read(objs[k] as int)
        } else {
            r.read(objs[k] as int) & 1 == 0 && !r.is_remembered(objs[k] as int)
        }
    &&& forall|k: int|
        0 <= k < objs.len() ==> same_size(h, r, (#[trigger] objs[k]) as int) && same_fields(
            h.hdr(objs[k] as int),
            r.hdr(objs[k] as int),
        )
    &&& forall|k: int, j: int|
        0 <= k < objs.len() && 0 <= j < h.nslots(objs[k] as int) ==> #[trigger] r.slot(
            objs[k] as int,
            j,
        ) == if k < i || h.hdr(objs[k] as int).byte_format() {
            h.slot(objs[k] as int, j)
        } else {
            crate::image::shifted(h.slot(objs[k] as int, j), delta)
        }
}

#[verifier::rlimit(60)]
#[verifier::spinoff_prover]
proof fn lemma_pass(l: LoadView, objs: Seq<usize>, p: int, top: int, i: int, delta: u64)
    requires
        l.heap.wf(),
        tiles(l.heap, objs, p, top),
        0 <= i <= objs.len(),
    ensures
        passed(l.heap, l.visited_all(objs, i, delta).heap, objs, i, delta),
    decreases objs.len() - i,
{
    if i < objs.len() {
        let h = l.heap;
        let o = objs[i] as int;
        assert(h.whole(objs[i] as int));
        lemma_settled(h, o, delta);
        let l1 = l.visited(o, delta);
        let h1 = l1.heap;
        assert(h1 == h.settled(o, delta));
        assert forall|k: int| 0 <= k < objs.len() implies same_size(
            h,
            h1,
            (#[trigger] objs[k]) as int,
        ) && same_fields(h.hdr(objs[k] as int), h1.hdr(objs[k] as int)) by {
            lemma_pass_other(h, h1, objs, p, top, i, k, delta);
        }
        lemma_tiles_kept(h, h1, objs, p, top);
        lemma_pass(l1, objs, p, top, i + 1, delta);
        let r = l1.visited_all(objs, i + 1, delta).heap;
        assert forall|k: int| 0 <= k < objs.len() implies if k < i {
            r.read(#[trigger] objs[k] as int) == h.read(objs[k] as int)
        } else {
            r.read(objs[k] as int) & 1 == 0 && !r.is_remembered(objs[k] as int)
        } by {
            lemma_pass_other(h, h1, objs, p, top, i, k, delta);
        }
        assert forall|k: int, j: int|
            0 <= k < objs.len() && 0 <= j < h.nslots(objs[k] as int) implies #[trigger] r.slot(
            objs[k] as int,
            j,
        ) == if k < i || h.hdr(objs[k] as int).byte_format() {
            h.slot(objs[k] as int, j)
        } else {
            crate::image::shifted(h.slot(objs[k] as int, j), delta)
        } by {
            lemma_pass_other(h, h1, objs, p, top, i, k, delta);
            let a = objs[k] as int;
            assert(h1.nslots(a) == h.nslots(a));
            if k == i {
                assert(h1.slot(o, j) == if h.hdr(o).byte_format() {
                    h.slot(o, j)
                } else {
                    crate::image::shifted(h.slot(o, j), delta)
                });
            } else {
                assert(h1.slot(objs[k] as int, j) == h.slot(objs[k] as int, j));
            }
        }
    } else {
        assert forall|k: int| 0 <= k < objs.len() implies same_size(
            l.heap,
            l.heap,
            (#[trigger] objs[k]) as int,
        ) by {}
    }
}

/// Settling one object leaves the others as they are.
#[verifier::rlimit(60)]
pub(crate) proof fn lemma_pass_other(
    h: HeapView,
    h1: HeapView,
    objs: Seq<usize>,
    p: int,
    top: int,
    i: int,
    k: int,
    delta: u64,
)
    requires
        h.wf(),
        tiles(h, objs, p, top),
        0 <= i < objs.len(),
        0 <= k < objs.len(),
        settled_ok(h, h1, objs[i] as int, delta),
    ensures
        same_size(h, h1, objs[k] as int),
        same_fields(h.hdr(objs[k] as int), h1.hdr(objs[k] as int)),
        k != i ==> h1.read(objs[k] as int) == h.read(objs[k] as int),
        k != i ==> forall|j: int|
            0 <= j < h.nslots(objs[k] as int) ==> #[trigger] h1.slot(objs[k] as int, j) == h.slot(
                objs[k] as int,
                j,
            ),
{
    let o = objs[i] as int;
    let a = objs[k] as int;
    assert(h.whole(objs[i] as int) && h.whole(objs[k] as int));
    if k < i {
        assert(fin(h, objs[k] as int) <= h.storage_start(objs[i] as int));
    } else if i < k {
        assert(fin(h, objs[i] as int) <= h.storage_start(objs[k] as int));
    }
    if h.has_over(a) {
        assert(h.plausible(a - 8));
        assert(h1.read(a - 8) == h.read(a - 8));
    }
    if k != i {
        assert(h1.read(a) == h.read(a));
        assert forall|j: int| 0 <= j < h.nslots(a) implies #[trigger] h1.slot(a, j) == h.slot(a, j)
            by {
            assert(h.plausible(a + 8 + 8 * j));
        }
    }
}

// ---------------------------------------------------------------------------
// The tables written into old space
// ---------------------------------------------------------------------------
#[verifier::rlimit(60)]
proof fn lemma_fill_from(h: HeapView, o: int, list: Seq<Value>, i: int)
    requires
        h.wf(),
        h.plausible(o),
        0 <= i <= list.len(),
        o + 8 + 8 * list.len() <= h.limit_of(o),
    ensures
        ({
            let r = h.fill_from(o, list, i);
            &&& r.wf()
            &&& r.layout() == h.layout()
            &&& r.old.alloc == h.old.alloc
            &&& r.from.alloc == h.from.alloc
            &&& forall|x: int|
                h.plausible(x) && !(o + 8 + 8 * i <= x < o + 8 + 8 * list.len())
                    ==> #[trigger] r.read(x) == h.read(x)
            &&& forall|k: int| i <= k < list.len() ==> #[trigger] r.slot(o, k) == list[k]
        }),
    decreases list.len() - i,
{
    if i < list.len() {
        let x = o + 8 + 8 * i;
        assert(h.plausible(x));
        let h1 = h.set_slot(o, i, list[i]);
        lemma_reads_after_write(h, x, list[i].0);
        lemma_fill_from(h1, o, list, i + 1);
        let r = h1.fill_from(o, list, i + 1);
        assert(h1.plausible(x));
        assert(r.read(x) == h1.read(x));
        assert forall|y: int|
            h.plausible(y) && !(o + 8 + 8 * i <= y < o + 8 + 8 * list.len()) implies
            #[trigger] r.read(y) == h.read(y) by {
            assert(h1.plausible(y));
            assert(h1.read(y) == h.read(y));
        }
        assert forall|k: int| i <= k < list.len() implies #[trigger] r.slot(o, k) == list[k] by {
            if k == i {
                assert(r.slot(o, k) == Value(r.read(x)));
            }
        }
    }
}

/// The words of a fresh array in old space.
#[verifier::rlimit(60)]
proof fn lemma_fresh_array(h: HeapView, n: int, nil: Value)
    requires
        h.wf(),
        0 <= n <= MAX_CLASS_INDEX + 1,
        h.old.fits(crate::heap::words_for(n)),
    ensures
        h.alloc_old(CLASS_ARRAY, FMT_PTRS, n, Some(nil.0), false) matches Some((h1, a)) && {
            &&& h1.wf()
            &&& h1.layout() == h.layout()
            &&& h1.from.alloc == h.from.alloc
            &&& h1.old.alloc == h.old.alloc + crate::heap::words_for(n)
            &&& h1.whole(a)
            &&& h1.storage_start(a) == h.old.top()
            &&& h1.nslots(a) == n
            &&& fin(h1, a) == h1.old.top()
            &&& headed(h1, a)
            &&& !h1.hdr(a).byte_format()
            &&& h1.hdr(a).class_field() == CLASS_ARRAY
            &&& 0 <= a <= usize::MAX
            &&& h.tenured(a)
            &&& forall|x: int|
                h.plausible(x) && h.tenured(x) && x < h.old.top() ==> #[trigger] h1.read(x)
                    == h.read(x)
        },
{
    reveal(HeapView::read);
    let f: u64 = if n >= 255 {
        255
    } else {
        n as u64
    };
    crate::heap::lemma_packed_fields(CLASS_ARRAY as u64, FMT_PTRS, f);
    let m = n as u64;
    crate::walks::lemma_no_class_bits(m);
    let (h1, a) = h.alloc_old(CLASS_ARRAY, FMT_PTRS, n, Some(nil.0), false)->0;
    let k = h.old.alloc + crate::heap::words_for(n) - n - 1;
    assert(a == h.old.base + 8 * k);
    assert(h1.read(a) == Header::packed(CLASS_ARRAY as u64, FMT_PTRS, f).0);
    if n >= 255 {
        assert(h1.read(a - 8) == n as u64);
    }
}

/// An array of values added after the objects of old space.
pub open spec fn array_added(
    h: HeapView,
    r: HeapView,
    a: int,
    objs: Seq<usize>,
    list: Seq<Value>,
) -> bool {
    &&& r.wf()
    &&& r.layout() == h.layout()
    &&& r.from.alloc == h.from.alloc
    &&& r.old.alloc == h.old.alloc + crate::heap::words_for(list.len() as int)
    &&& 0 <= a <= usize::MAX
    &&& r.old.base <= a < r.old.top()
    &&& tiles(r, objs.push(a as usize), r.old.base, r.old.top())
    &&& headed(r, a)
    &&& r.whole(a)
    &&& r.nslots(a) == list.len()
    &&& !r.hdr(a).byte_format()
    &&& r.hdr(a).class_field() == CLASS_ARRAY
    &&& forall|k: int| 0 <= k < list.len() ==> #[trigger] r.slot(a, k) == list[k]
    &&& forall|x: int|
        h.plausible(x) && h.tenured(x) && x < h.old.top() ==> #[trigger] r.read(x) == h.read(x)
}

#[verifier::rlimit(60)]
proof fn lemma_array_added(h: HeapView, objs: Seq<usize>, list: Seq<Value>, nil: Value)
    requires
        h.wf(),
        list.len() <= MAX_CLASS_INDEX + 1,
        h.old.fits(crate::heap::words_for(list.len() as int)),
        tiles(h, objs, h.old.base, h.old.top()),
    ensures
        h.alloc_old(CLASS_ARRAY, FMT_PTRS, list.len() as int, Some(nil.0), false) matches Some(
            (h1, a),
        ) && array_added(h, h1.fill_from(a, list, 0), a, objs, list),
{
    let n = list.len() as int;
    lemma_fresh_array(h, n, nil);
    let (h1, a) = h.alloc_old(CLASS_ARRAY, FMT_PTRS, n, Some(nil.0), false)->0;
    lemma_fill_from(h1, a, list, 0);
    let r = h1.fill_from(a, list, 0);
    assert(r.read(a) == h1.read(a)) by {
        assert(h1.plausible(a));
    }
    if h1.has_over(a) {
        assert(h1.plausible(a - 8));
        assert(r.read(a - 8) == h1.read(a - 8));
    }
    assert forall|x: int|
        h.plausible(x) && h.tenured(x) && x < h.old.top() implies #[trigger] r.read(x) == h.read(
        x,
    ) by {
        assert(h1.plausible(x));
        assert(h1.read(x) == h.read(x));
    }
    assert forall|k: int| 0 <= k < objs.len() implies same_size(h, r, (#[trigger] objs[k]) as int)
        by {
        let o = objs[k] as int;
        assert(listed(objs, objs[k] as int));
        lemma_within(h, objs, h.old.base, h.old.top(), o);
        assert(r.read(o) == h.read(o));
        if h.has_over(o) {
            assert(r.read(o - 8) == h.read(o - 8));
        }
    }
    lemma_tiles_kept(h, r, objs, h.old.base, h.old.top());
    lemma_tiles_more(r, objs, h.old.base, h.old.top(), a as usize);
}

// ---------------------------------------------------------------------------
// The law
// ---------------------------------------------------------------------------
/// A list of values moved by the distance between two bases.
pub open spec fn shifted_all(list: Seq<Value>, delta: u64) -> Seq<Value> {
    Seq::new(list.len(), |i: int| crate::image::shifted(list[i], delta))
}

/// The object at `a` in `h` is at `n` in `r`, its pointers moved.
pub open spec fn reloaded(h: HeapView, a: int, r: HeapView, n: int, delta: u64) -> bool {
    &&& r.whole(n)
    &&& same_fields(h.hdr(a), r.hdr(n))
    &&& r.nslots(n) == h.nslots(a)
    &&& forall|i: int|
        0 <= i < h.nslots(a) ==> #[trigger] r.slot(n, i) == if h.hdr(a).byte_format() {
            h.slot(a, i)
        } else {
            crate::image::shifted(h.slot(a, i), delta)
        }
}

/// Old space is made of objects that a walk finds.
pub open spec fn walkable(h: HeapView, objs: Seq<usize>) -> bool {
    &&& tiles(h, objs, h.old.base, h.old.top())
    &&& forall|i: int| 0 <= i < objs.len() ==> headed(h, (#[trigger] objs[i]) as int)
}

/// A loaded heap: the given objects fill old space, none of them is marked or
/// remembered, and the other spaces are empty.
#[verifier::opaque]
pub open spec fn settled_in(h: HeapView, objs: Seq<usize>) -> bool {
    &&& h.wf()
    &&& walkable(h, objs)
    &&& h.from.alloc == 0
    &&& h.to.alloc == 0
    &&& h.ssb.len() == 0
    &&& forall|k: int|
        0 <= k < objs.len() ==> h.read(#[trigger] objs[k] as int) & 1 == 0 && !h.is_remembered(
            objs[k] as int,
        )
}

/// What loading gives back of a heap that was written.
#[verifier::rlimit(60)]
#[verifier::spinoff_prover]
pub(crate) proof fn lemma_loaded(
    h: HeapView,
    objs: Seq<usize>,
    sp: int,
    cl: int,
    active: int,
    config: HeapConfig,
)
    requires
        h.wf(),
        walkable(h, objs),
        h.old.base <= sp < h.old.top(),
        h.old.base <= cl < h.old.top(),
        h.old.base <= active < h.old.top(),
        crate::image::image_fits(config, 8 * h.old.alloc),
    ensures
        ({
            let data = h.image(sp, cl, active);
            let head = crate::image::image_head(data)->Ok_0;
            let delta = ((VmView::image_heap(
                data,
                8 * h.old.alloc,
                config,
            ).old.base) as u64).wrapping_sub(h.old.base as u64);
            VmView::image_pass(data, head, config) matches Some(l) && {
                let d = l.heap.old.base - h.old.base;
                &&& l.heap.wf()
                &&& l.heap.old.base == VmView::image_heap(data, 8 * h.old.alloc, config).old.base
                &&& l.heap.old.alloc == h.old.alloc
                &&& forall|k: int|
                    0 <= k < objs.len() ==> reloaded(
                        h,
                        (#[trigger] objs[k]) as int,
                        l.heap,
                        objs[k] + d,
                        delta,
                    )
                &&& tables_of(h, objs, d, delta, l.symbols, l.symbol_names, l.sites)
                &&& settled_in(l.heap, rebased(objs, h.old.base, l.heap.old.base))
            }
        }),
{
    let data = h.image(sp, cl, active);
    lemma_image_head(h, sp, cl, active);
    lemma_image_heap(h, sp, cl, active, config);
    let r0 = VmView::image_heap(data, 8 * h.old.alloc, config);
    lemma_rebased(h, r0, objs);
    let t = rebased(objs, h.old.base, r0.old.base);
    let d = r0.old.base - h.old.base;
    let delta = (r0.old.base as u64).wrapping_sub(h.old.base as u64);
    let l0 = LoadView {
        heap: r0,
        sites: Seq::empty(),
        symbol_names: Seq::empty(),
        symbols: Seq::empty(),
    };
    lemma_pass(l0, t, r0.old.base, r0.old.top(), 0, delta);
    let l = l0.visited_all(t, 0, delta);
    let r = l.heap;
    lemma_tabled(l0, t, r0.old.base, r0.old.top(), 0, delta);
    assert forall|k: int| 0 <= k < objs.len() implies t[k] == (#[trigger] objs[k]) + d && alike_at(
        h,
        r0,
        objs[k] as int,
        d,
    ) by {
        assert(listed(objs, objs[k] as int));
        lemma_within(h, objs, h.old.base, h.old.top(), objs[k] as int);
        lemma_alike_at(h, r0, objs[k] as int);
    }
    lemma_tables_moved(h, objs, l0, l, t);
    assert(settled_in(r, t)) by {
        reveal(settled_in);
        lemma_tiles_kept(r0, r, t, r0.old.base, r0.old.top());
        assert forall|k: int| 0 <= k < t.len() implies headed(r, (#[trigger] t[k]) as int) by {
            assert(same_size(r0, r, t[k] as int));
            assert(t[k] == objs[k] + d && alike_at(h, r0, objs[k] as int, d));
            assert(headed(h, objs[k] as int));
        }
    }
    assert forall|k: int| 0 <= k < objs.len() implies reloaded(
        h,
        (#[trigger] objs[k]) as int,
        r,
        objs[k] + d,
        delta,
    ) by {
        let a = objs[k] as int;
        let n = a + d;
        assert(t[k] == n);
        assert(listed(objs, objs[k] as int));
        lemma_within(h, objs, h.old.base, h.old.top(), a);
        lemma_alike_at(h, r0, a);
        assert(same_size(r0, r, t[k] as int));
        assert(r0.whole(t[k] as int));
        assert(r.whole(n));
        assert forall|i: int| 0 <= i < h.nslots(a) implies #[trigger] r.slot(n, i)
            == if h.hdr(a).byte_format() {
            h.slot(a, i)
        } else {
            crate::image::shifted(h.slot(a, i), delta)
        } by {
            assert(r0.slot(n, i) == h.slot(a, i));
            assert(r.slot(t[k] as int, i) == if r0.hdr(n).byte_format() {
                r0.slot(n, i)
            } else {
                crate::image::shifted(r0.slot(n, i), delta)
            });
        }
    }
}

/// Moving an address of the written space moves it to the loaded space.
pub(crate) proof fn lemma_shift_addr(a: int, from: int, to: int)
    requires
        0 <= from <= a,
        0 <= to,
        a <= u64::MAX,
        to + (a - from) <= u64::MAX,
        a % 8 == 0,
    ensures
        crate::image::shifted(Value(a as u64), (to as u64).wrapping_sub(from as u64)) == Value(
            (to + (a - from)) as u64,
        ),
{
    crate::value::lemma_untag_bits(Value(a as u64));
}

/// An image gives the machine back: loading what was written succeeds, and
/// every object of old space, the class table, the special objects and the
/// active process are there again, with class, identity hash, format, size
/// and bytes as they were and every pointer moved by the distance between
/// the two bases of old space. The symbol table holds the symbols of old
/// space under their names, and the send sites of its methods are registered.
#[verifier::rlimit(60)]
#[verifier::spinoff_prover]
pub proof fn law_image_round_trip(v: VmView, old: Seq<usize>, config: VmConfig)
    requires
        v.heap.wf(),
        walkable(v.heap, old),
        v.specials.len() >= SPECIAL_OBJECTS_COUNT,
        v.class_table.len() <= MAX_CLASS_INDEX + 1,
        listed(old, v.active.addr()),
        v.imaged().1 is Ok,
        crate::image::image_fits(config.heap, v.imaged().1->Ok_0.len() - IMG_HEADER_SIZE),
    ensures
        VmView::from_image(v.imaged().1->Ok_0, config) matches Ok(w) && {
            let d = w.heap.old.base - v.heap.old.base;
            let delta = (w.heap.old.base as u64).wrapping_sub(v.heap.old.base as u64);
            &&& forall|a: int| #[trigger]
                listed(old, a) ==> reloaded(v.heap, a, w.heap, a + d, delta)
            &&& w.class_table == shifted_all(v.class_table, delta)
            &&& w.specials == shifted_all(
                v.imaged().0.specials.take(SPECIAL_OBJECTS_COUNT as int),
                delta,
            )
            &&& w.active == crate::image::shifted(v.active, delta)
            &&& tables_of(v.heap, old, d, delta, w.symbols, w.symbol_names, w.sites)
        },
{
    let v1 = v.imaged().0;
    let data = v.imaged().1->Ok_0;
    let h = v.heap;
    let n = v.class_table.len() as int;
    let (cl, sp) = lemma_image_objects(v, old);
    let r = v1.heap;
    let specials = v1.specials.take(SPECIAL_OBJECTS_COUNT as int);
    let old1 = old.push(cl as usize);
    let old2 = old1.push(sp as usize);
    lemma_within(h, old, h.old.base, h.old.top(), v.active.addr());
    assert(old2[old.len() as int] == cl);
    assert(old2[old.len() as int + 1] == sp);
    lemma_image_head(r, sp, cl, v.active.addr());
    lemma_written_back(r, old2, old.len() as int, v.active.addr(), config);
    let w = VmView::from_image(data, config)->Ok_0;
    let d = w.heap.old.base - h.old.base;
    let delta = (w.heap.old.base as u64).wrapping_sub(h.old.base as u64);
    assert(crate::image::slot_list(w.heap, cl + d) == shifted_all(v.class_table, delta)) by {
        lemma_list_back(r, cl, w.heap, cl + d, delta, v.class_table);
    }
    assert(crate::image::slot_list(w.heap, sp + d) == shifted_all(specials, delta)) by {
        lemma_list_back(r, sp, w.heap, sp + d, delta, specials);
    }
    assert(tables_of(h, old, d, delta, w.symbols, w.symbol_names, w.sites)) by {
        lemma_tables_written(h, old, r, cl, sp, d, delta, w);
    }
    assert(shifted_all(specials, delta).take(SPECIAL_OBJECTS_COUNT as int) =~= shifted_all(
        specials,
        delta,
    ));
    assert(forall|a: int| #[trigger] listed(old, a) ==> reloaded(h, a, w.heap, a + d, delta)) by {
        lemma_objects_back(h, r, old, old2, w.heap, d, delta);
    }
}

/// An image that was written from a heap whose objects from the `k`th on are
/// the class list and the special objects is loaded.
#[verifier::rlimit(60)]
#[verifier::spinoff_prover]
proof fn lemma_written_back(r: HeapView, objs: Seq<usize>, k: int, active: int, config: VmConfig)
    requires
        r.wf(),
        walkable(r, objs),
        0 <= k < objs.len() - 1,
        r.old.base <= objs[k] < r.old.top(),
        r.old.base <= objs[k + 1] < r.old.top(),
        r.old.base <= active < r.old.top(),
        active % 8 == 0,
        r.nslots(objs[k + 1] as int) == SPECIAL_OBJECTS_COUNT,
        crate::image::image_fits(config.heap, 8 * r.old.alloc),
    ensures
        VmView::from_image(
            r.image(objs[k + 1] as int, objs[k] as int, active),
            config,
        ) matches Ok(w) && {
            let d = w.heap.old.base - r.old.base;
            let delta = (w.heap.old.base as u64).wrapping_sub(r.old.base as u64);
            &&& forall|i: int|
                0 <= i < objs.len() ==> reloaded(
                    r,
                    (#[trigger] objs[i]) as int,
                    w.heap,
                    objs[i] + d,
                    delta,
                )
            &&& w.class_table == crate::image::slot_list(w.heap, objs[k] + d)
            &&& w.specials == crate::image::slot_list(w.heap, objs[k + 1] + d).take(
                SPECIAL_OBJECTS_COUNT as int,
            )
            &&& w.active == crate::image::shifted(Value(active as u64), delta)
            &&& tables_of(r, objs, d, delta, w.symbols, w.symbol_names, w.sites)
        },
{
    let cl = objs[k] as int;
    let sp = objs[k + 1] as int;
    let data = r.image(sp, cl, active);
    lemma_image_head(r, sp, cl, active);
    lemma_loaded(r, objs, sp, cl, active, config.heap);
    let head = crate::image::image_head(data)->Ok_0;
    let l = VmView::image_pass(data, head, config.heap)->0;
    let d = l.heap.old.base - r.old.base;
    let delta = (l.heap.old.base as u64).wrapping_sub(r.old.base as u64);
    assert(reloaded(r, objs[k] as int, l.heap, cl + d, delta));
    assert(reloaded(r, objs[k + 1] as int, l.heap, sp + d, delta));
    lemma_shift_addr(active, r.old.base, l.heap.old.base);
    lemma_from_image(data, config, head, l);
}

/// The machine that a loaded heap and its tables give.
proof fn lemma_from_image(data: Seq<u8>, config: VmConfig, head: ImageHead, l: LoadView)
    requires
        crate::image::image_head(data) == Ok::<ImageHead, Fault>(head),
        crate::image::image_fits(config.heap, head.size as int),
        VmView::image_pass(data, head, config.heap) == Some(l),
        l.heap.shaped(l.heap.old.base + head.specials, SPECIAL_OBJECTS_COUNT as int),
        crate::image::specials_in(l.heap, l.heap.old.base + head.specials) == SPECIAL_OBJECTS_COUNT,
        l.heap.whole(l.heap.old.base + head.classes),
        l.heap.old.base + head.active <= u64::MAX,
        (l.heap.old.base + head.active) % 8 == 0,
    ensures
        VmView::from_image(data, config) matches Ok(w) && {
            &&& w.heap == l.heap
            &&& w.class_table == crate::image::slot_list(
                l.heap,
                l.heap.old.base + head.classes,
            )
            &&& w.specials == crate::image::slot_list(
                l.heap,
                l.heap.old.base + head.specials,
            ).take(SPECIAL_OBJECTS_COUNT as int)
            &&& w.active == Value((l.heap.old.base + head.active) as u64)
            &&& (w.symbols, w.symbol_names, w.sites) == (l.symbols, l.symbol_names, l.sites)
        },
{
    reveal(VmView::from_image);
}

/// The slots of an array that was written come back moved.
proof fn lemma_list_back(
    r: HeapView,
    a: int,
    g: HeapView,
    b: int,
    delta: u64,
    list: Seq<Value>,
)
    requires
        reloaded(r, a, g, b, delta),
        r.nslots(a) == list.len(),
        !r.hdr(a).byte_format(),
        forall|k: int| 0 <= k < list.len() ==> #[trigger] r.slot(a, k) == list[k],
    ensures
        crate::image::slot_list(g, b) == shifted_all(list, delta),
{
    assert forall|i: int| 0 <= i < list.len() implies #[trigger] g.slot(b, i)
        == crate::image::shifted(list[i], delta) by {
        assert(r.slot(a, i) == list[i]);
    }
    assert(crate::image::slot_list(g, b) =~= shifted_all(list, delta));
}

/// The objects that an image is written from: those of old space, the class
/// list and the special objects.
#[verifier::rlimit(60)]
#[verifier::spinoff_prover]
pub(crate) proof fn lemma_image_objects(v: VmView, old: Seq<usize>) -> (found: (int, int))
    requires
        v.heap.wf(),
        walkable(v.heap, old),
        v.specials.len() >= SPECIAL_OBJECTS_COUNT,
        v.class_table.len() <= MAX_CLASS_INDEX + 1,
        listed(old, v.active.addr()),
        v.imaged().1 is Ok,
    ensures
        ({
            let (cl, sp) = found;
            let h = v.heap;
            let r = v.imaged().0.heap;
            let specials = v.imaged().0.specials.take(SPECIAL_OBJECTS_COUNT as int);
            &&& v.imaged().1->Ok_0 == r.image(sp, cl, v.active.addr())
            &&& r.wf()
            &&& r.layout() == h.layout()
            &&& walkable(r, old.push(cl as usize).push(sp as usize))
            &&& forall|x: int|
                h.plausible(x) && h.tenured(x) && x < h.old.top() ==> #[trigger] r.read(x)
                    == h.read(x)
            &&& h.old.base <= cl < r.old.top()
            &&& h.old.base <= sp < r.old.top()
            &&& h.old.base <= v.active.addr() < r.old.top()
            &&& 0 <= cl <= usize::MAX
            &&& 0 <= sp <= usize::MAX
            &&& r.nslots(cl) == v.class_table.len()
            &&& r.nslots(sp) == SPECIAL_OBJECTS_COUNT
            &&& !r.hdr(cl).byte_format()
            &&& !r.hdr(sp).byte_format()
            &&& r.hdr(cl).class_field() == CLASS_ARRAY
            &&& r.hdr(sp).class_field() == CLASS_ARRAY
            &&& forall|k: int|
                0 <= k < v.class_table.len() ==> #[trigger] r.slot(cl, k) == v.class_table[k]
            &&& forall|k: int|
                0 <= k < SPECIAL_OBJECTS_COUNT ==> #[trigger] r.slot(sp, k) == specials[k]
            &&& v.imaged().0.specials == v.specials.update(
                SPECIAL_CLASS_LIST as int,
                Value(cl as u64),
            )
        }),
{
    reveal(VmView::imaged);
    let h = v.heap;
    let nil = v.nil();
    let n = v.class_table.len() as int;
    lemma_array_added(h, old, v.class_table, nil);
    let (h1, cl) = h.alloc_old(CLASS_ARRAY, FMT_PTRS, n, Some(nil.0), false)->0;
    let h2 = h1.fill_from(cl, v.class_table, 0);
    let all = v.specials.update(SPECIAL_CLASS_LIST as int, Value(cl as u64));
    let specials = all.take(SPECIAL_OBJECTS_COUNT as int);
    let old1 = old.push(cl as usize);
    assert(h2.old.mem.len() == h.old.mem.len());
    lemma_array_added(h2, old1, specials, nil);
    let (h3, sp) = h2.alloc_old(
        CLASS_ARRAY,
        FMT_PTRS,
        SPECIAL_OBJECTS_COUNT as int,
        Some(nil.0),
        false,
    )->0;
    let r = h3.fill_from(sp, specials, 0);
    lemma_within(h, old, h.old.base, h.old.top(), v.active.addr());
    lemma_written(h, h2, r, old, cl, sp, v.class_table, specials);
    (cl, sp)
}

/// The objects of old space come back with those written after them.
proof fn lemma_objects_back(
    h: HeapView,
    r: HeapView,
    old: Seq<usize>,
    more: Seq<usize>,
    g: HeapView,
    d: int,
    delta: u64,
)
    requires
        h.wf(),
        tiles(h, old, h.old.base, h.old.top()),
        old.is_prefix_of(more),
        forall|x: int|
            h.plausible(x) && h.tenured(x) && x < h.old.top() ==> #[trigger] r.read(x) == h.read(x),
        forall|k: int|
            0 <= k < more.len() ==> reloaded(r, (#[trigger] more[k]) as int, g, more[k] + d, delta),
    ensures
        forall|a: int| #[trigger] listed(old, a) ==> reloaded(h, a, g, a + d, delta),
{
    assert forall|a: int| #[trigger] listed(old, a) implies reloaded(h, a, g, a + d, delta) by {
        let k = choose|k: int| 0 <= k < old.len() && #[trigger] old[k] == a;
        assert(more[k] == a);
        assert(reloaded(r, more[k] as int, g, more[k] + d, delta));
        lemma_words_kept(h, r, old, a);
        assert forall|i: int| 0 <= i < h.nslots(a) implies #[trigger] g.slot(a + d, i)
            == if h.hdr(a).byte_format() {
            h.slot(a, i)
        } else {
            crate::image::shifted(h.slot(a, i), delta)
        } by {
            assert(r.slot(a, i) == h.slot(a, i));
        }
    }
}

/// The two arrays that are written add nothing to the tables.
proof fn lemma_tables_written(
    h: HeapView,
    old: Seq<usize>,
    r: HeapView,
    cl: int,
    sp: int,
    d: int,
    delta: u64,
    w: VmView,
)
    requires
        h.wf(),
        tiles(h, old, h.old.base, h.old.top()),
        r.layout() == h.layout(),
        r.hdr(cl).class_field() == CLASS_ARRAY,
        r.hdr(sp).class_field() == CLASS_ARRAY,
        0 <= cl <= usize::MAX,
        0 <= sp <= usize::MAX,
        forall|x: int|
            h.plausible(x) && h.tenured(x) && x < h.old.top() ==> #[trigger] r.read(x) == h.read(x),
        tables_of(
            r,
            old.push(cl as usize).push(sp as usize),
            d,
            delta,
            w.symbols,
            w.symbol_names,
            w.sites,
        ),
    ensures
        tables_of(h, old, d, delta, w.symbols, w.symbol_names, w.sites),
{
    let more = old.push(cl as usize).push(sp as usize);
    lemma_tables_same(h, old, r, more, d, delta, w.symbols, w.symbol_names, w.sites);
}

/// An object of old space keeps its words while others are added after it.
pub(crate) proof fn lemma_words_kept(h: HeapView, r: HeapView, objs: Seq<usize>, a: int)
    requires
        h.wf(),
        tiles(h, objs, h.old.base, h.old.top()),
        listed(objs, a),
        forall|x: int|
            h.plausible(x) && h.tenured(x) && x < h.old.top() ==> #[trigger] r.read(x) == h.read(x),
    ensures
        r.hdr(a) == h.hdr(a),
        r.nslots(a) == h.nslots(a),
        h.has_over(a) ==> r.read(a - 8) == h.read(a - 8),
        forall|i: int| 0 <= i < h.nslots(a) ==> #[trigger] r.slot(a, i) == h.slot(a, i),
{
    lemma_within(h, objs, h.old.base, h.old.top(), a);
    assert(r.read(a) == h.read(a));
    if h.has_over(a) {
        assert(r.read(a - 8) == h.read(a - 8));
    }
    assert forall|i: int| 0 <= i < h.nslots(a) implies #[trigger] r.slot(a, i) == h.slot(a, i) by {
        assert(h.plausible(a + 8 + 8 * i));
    }
}

/// The heap that is written: the objects, the class list and the special
/// objects.
#[verifier::rlimit(60)]
proof fn lemma_written(
    h: HeapView,
    h2: HeapView,
    r: HeapView,
    old: Seq<usize>,
    cl: int,
    sp: int,
    classes: Seq<Value>,
    specials: Seq<Value>,
)
    requires
        h.wf(),
        walkable(h, old),
        array_added(h, h2, cl, old, classes),
        array_added(h2, r, sp, old.push(cl as usize), specials),
    ensures
        walkable(r, old.push(cl as usize).push(sp as usize)),
        forall|x: int|
            h.plausible(x) && h.tenured(x) && x < h.old.top() ==> #[trigger] r.read(x) == h.read(x),
        r.old.base == h.old.base,
        h.old.top() <= r.old.top(),
        h.old.base <= cl < r.old.top(),
        h.old.base <= sp < r.old.top(),
        r.nslots(cl) == classes.len(),
        r.whole(cl),
        !r.hdr(cl).byte_format(),
        r.hdr(cl).class_field() == CLASS_ARRAY,
        r.hdr(sp).class_field() == CLASS_ARRAY,
        r.layout() == h.layout(),
        r.nslots(sp) == specials.len(),
        !r.hdr(sp).byte_format(),
        forall|k: int| 0 <= k < classes.len() ==> #[trigger] r.slot(cl, k) == classes[k],
        forall|k: int| 0 <= k < specials.len() ==> #[trigger] r.slot(sp, k) == specials[k],
{
    let old1 = old.push(cl as usize);
    let old2 = old1.push(sp as usize);
    assert forall|x: int|
        h.plausible(x) && h.tenured(x) && x < h.old.top() implies #[trigger] r.read(x) == h.read(
        x,
    ) by {
        assert(h2.read(x) == h.read(x));
        assert(h2.plausible(x) && h2.tenured(x));
    }
    assert(old1[old.len() as int] == cl);
    assert(listed(old1, cl));
    lemma_words_kept(h2, r, old1, cl);
    lemma_within(h2, old1, h2.old.base, h2.old.top(), cl);
    assert forall|k: int| 0 <= k < classes.len() implies #[trigger] r.slot(cl, k) == classes[k] by {
        assert(h2.slot(cl, k) == classes[k]);
    }
    assert forall|i: int| 0 <= i < old2.len() implies headed(r, (#[trigger] old2[i]) as int) by {
        if i < old.len() {
            assert(old2[i] == old[i]);
            assert(headed(h, old[i] as int));
            assert(listed(old, old[i] as int));
            lemma_words_kept(h, r, old, old[i] as int);
        } else if i == old.len() {
            assert(headed(h2, cl));
        }
    }
}

} // verus!
