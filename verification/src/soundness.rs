//! What keeps a heap sound: allocations, stores of known values, and changes
//! to the collector's byte and the identity hash of a header.

use crate::graph::{
    fin, headed, lemma_reads_after_write, lemma_tiles_kept, lemma_within, listed, same_size, tiles,
    Objects,
};
use crate::heap::{Header, HeapView};
use crate::value::Value;
use crate::walks::{lemma_old_shape, lemma_one_added, lemma_young_shape, Wanted};
use vstd::prelude::*;

verus! {

/// Where a listed object lies.
pub(crate) proof fn lemma_lies(b: Objects, a: int)
    requires
        b.sound(),
        b.lists(a),
    ensures
        b.heap.whole(a),
        b.heap.plausible(a),
        a % 8 == 0,
        0 <= a <= usize::MAX,
        listed(b.young, a) ==> b.heap.young(a) && b.heap.from.base <= b.heap.storage_start(a)
            && fin(b.heap, a) <= b.heap.from.top(),
        listed(b.old, a) ==> b.heap.tenured(a) && !b.heap.young(a) && b.heap.old.base
            <= b.heap.storage_start(a) && fin(b.heap, a) <= b.heap.old.top(),
        b.heap.storage_start(a) <= a,
{
    reveal(Objects::sound);
    if listed(b.young, a) {
        lemma_within(b.heap, b.young, b.heap.from.base, b.heap.from.top(), a);
    } else {
        lemma_within(b.heap, b.old, b.heap.old.base, b.heap.old.top(), a);
    }
}

/// Listed objects do not overlap.
#[verifier::rlimit(60)]
pub(crate) proof fn lemma_disjoint(b: Objects, a: int, o: int)
    requires
        b.sound(),
        b.lists(a),
        b.lists(o),
        a != o,
    ensures
        fin(b.heap, a) <= b.heap.storage_start(o) || fin(b.heap, o) <= b.heap.storage_start(a),
{
    lemma_lies(b, a);
    lemma_lies(b, o);
    let h = b.heap;
    assert(h.wf() && tiles(h, b.young, h.from.base, h.from.top()) && tiles(
        h,
        b.old,
        h.old.base,
        h.old.top(),
    )) by {
        reveal(Objects::sound);
    }
    if listed(b.young, a) && listed(b.young, o) {
        crate::graph::lemma_apart(h, b.young, h.from.base, h.from.top(), a, o);
    } else if listed(b.old, a) && listed(b.old, o) {
        crate::graph::lemma_apart(h, b.old, h.old.base, h.old.top(), a, o);
    }
}

/// The objects with another heap.
pub open spec fn with_heap(b: Objects, h: HeapView) -> Objects {
    Objects { heap: h, ..b }
}

/// The words of the object at `a` that tell its class, format and size, and
/// its references, are as they were.
pub open spec fn same_object(h: HeapView, h1: HeapView, a: int) -> bool {
    &&& h1.read(a) == h.read(a)
    &&& h.has_over(a) ==> h1.read(a - 8) == h.read(a - 8)
    &&& !h.hdr(a).byte_format() ==> forall|i: int|
        0 <= i < h.nslots(a) ==> #[trigger] h1.slot(a, i) == h.slot(a, i)
}

/// A heap is sound when its objects are as in a sound one, but for one whose
/// header still tells the same and whose references are known.
#[verifier::rlimit(60)]
pub(crate) proof fn lemma_sound_but_one(b: Objects, h1: HeapView, o: int)
    requires
        b.sound(),
        b.lists(o),
        h1.wf(),
        h1.layout() == b.heap.layout(),
        h1.from.alloc == b.heap.from.alloc,
        h1.to.alloc == b.heap.to.alloc,
        h1.old.alloc == b.heap.old.alloc,
        forall|a: int| #[trigger] b.lists(a) && a != o ==> same_object(b.heap, h1, a),
        same_size(b.heap, h1, o),
        h1.hdr(o).class_field() == b.heap.hdr(o).class_field(),
        h1.hdr(o).format_field() == b.heap.hdr(o).format_field(),
        h1.read(o) & 1 == 0,
        b.has(o) && !b.heap.hdr(o).byte_format() ==> forall|i: int|
            0 <= i < b.heap.nslots(o) ==> b.known(#[trigger] h1.slot(o, i)),
    ensures
        with_heap(b, h1).sound(),
{
    let h = b.heap;
    let b1 = with_heap(b, h1);
    assert forall|a: int| #[trigger] b.lists(a) implies same_size(h, h1, a) by {
        if a != o {
            assert(same_object(h, h1, a));
        }
    }
    assert(tiles(h, b.young, h.from.base, h.from.top()) && tiles(
        h,
        b.old,
        h.old.base,
        h.old.top(),
    ) && h.to.alloc == 0) by {
        reveal(Objects::sound);
    }
    assert forall|k: int| 0 <= k < b.young.len() implies same_size(
        h,
        h1,
        (#[trigger] b.young[k]) as int,
    ) by {
        assert(listed(b.young, b.young[k] as int));
        assert(b.lists(b.young[k] as int));
    }
    assert forall|k: int| 0 <= k < b.old.len() implies same_size(
        h,
        h1,
        (#[trigger] b.old[k]) as int,
    ) by {
        assert(listed(b.old, b.old[k] as int));
        assert(b.lists(b.old[k] as int));
    }
    lemma_tiles_kept(h, h1, b.young, h.from.base, h.from.top());
    lemma_tiles_kept(h, h1, b.old, h.old.base, h.old.top());
    assert forall|a: int| #[trigger] b1.lists(a) implies h1.read(a) & 1 == 0 && headed(h1, a) by {
        assert(b.lists(a));
        assert(h.read(a) & 1 == 0 && headed(h, a)) by {
            reveal(Objects::sound);
        }
        if a != o {
            assert(same_object(h, h1, a));
        }
    }
    assert forall|a: int, i: int|
        b1.has(a) && !h1.hdr(a).byte_format() && 0 <= i < h1.nslots(a) implies b1.known(
        #[trigger] h1.slot(a, i),
    ) by {
        assert(b.has(a) && b.lists(a));
        assert(same_size(h, h1, a));
        if a != o {
            assert(same_object(h, h1, a));
            assert(h1.slot(a, i) == h.slot(a, i));
            assert(b.known(h.slot(a, i))) by {
                reveal(Objects::sound);
            }
        }
        assert(b.known(h1.slot(a, i)));
    }
    reveal(Objects::sound);
}

/// A word of one object written leaves the others as they were.
#[verifier::rlimit(60)]
pub(crate) proof fn lemma_others(b: Objects, o: int, x: int, w: u64)
    requires
        b.sound(),
        b.lists(o),
        b.heap.storage_start(o) <= x < fin(b.heap, o),
        x % 8 == 0,
    ensures
        b.heap.plausible(x),
        forall|a: int| #[trigger]
            b.lists(a) && a != o ==> same_object(b.heap, b.heap.write(x, w), a) && forall|i: int|
                0 <= i < b.heap.nslots(a) ==> #[trigger] b.heap.write(x, w).slot(a, i)
                    == b.heap.slot(a, i),
{
    let h = b.heap;
    let h1 = h.write(x, w);
    assert(h.wf()) by {
        reveal(Objects::sound);
    }
    lemma_lies(b, o);
    assert(h.plausible(x));
    lemma_reads_after_write(h, x, w);
    assert forall|a: int| #[trigger] b.lists(a) && a != o implies same_object(h, h1, a) && forall|
        i: int,
    |
        0 <= i < h.nslots(a) ==> #[trigger] h1.slot(a, i) == h.slot(a, i) by {
        lemma_lies(b, a);
        lemma_disjoint(b, a, o);
        assert(h1.read(a) == h.read(a));
        if h.has_over(a) {
            assert(h.plausible(a - 8));
        }
        assert forall|i: int| 0 <= i < h.nslots(a) implies #[trigger] h1.slot(a, i) == h.slot(
            a,
            i,
        ) by {
            let y = a + 8 + 8 * i;
            assert(h.plausible(y));
            assert(h1.read(y) == h.read(y));
        }
    }
}

/// A heap stays sound when a known value is stored in a slot.
#[verifier::rlimit(60)]
pub proof fn law_store_keeps_heap_sound(b: Objects, o: int, i: int, v: Value)
    requires
        b.sound(),
        b.lists(o),
        !b.heap.hdr(o).byte_format(),
        0 <= i < b.heap.nslots(o),
        b.known(v),
    ensures
        with_heap(b, b.heap.set_slot(o, i, v)).sound(),
        b.heap.set_slot(o, i, v).slot(o, i) == v,
        b.heap.set_slot(o, i, v).layout() == b.heap.layout(),
        b.heap.set_slot(o, i, v).ssb == b.heap.ssb,
        forall|a: int| #[trigger]
            b.lists(a) ==> b.heap.set_slot(o, i, v).hdr(a) == b.heap.hdr(a) && b.heap.set_slot(
                o,
                i,
                v,
            ).nslots(a) == b.heap.nslots(a),
        forall|a: int, j: int|
            b.lists(a) && 0 <= j < b.heap.nslots(a) && (a != o || j != i) ==> #[trigger] b.heap.set_slot(
                o,
                i,
                v,
            ).slot(a, j) == b.heap.slot(a, j),
{
    let h = b.heap;
    let x = o + 8 + 8 * i;
    let h1 = h.set_slot(o, i, v);
    lemma_lies(b, o);
    lemma_others(b, o, x, v.0);
    assert(h.wf()) by {
        reveal(Objects::sound);
    }
    lemma_reads_after_write(h, x, v.0);
    assert(h1.read(o) == h.read(o));
    if h.has_over(o) {
        assert(h.plausible(o - 8));
        assert(h1.read(o - 8) == h.read(o - 8));
    }
    assert forall|j: int| 0 <= j < h.nslots(o) && j != i implies #[trigger] h1.slot(o, j) == h.slot(
        o,
        j,
    ) by {
        assert(h.plausible(o + 8 + 8 * j));
    }
    assert(h1.read(o) & 1 == 0) by {
        reveal(Objects::sound);
    }
    assert(b.has(o) ==> forall|j: int| 0 <= j < h.nslots(o) ==> b.known(#[trigger] h.slot(o, j)))
        by {
        reveal(Objects::sound);
    }
    if b.has(o) {
        assert forall|j: int| 0 <= j < h.nslots(o) implies b.known(#[trigger] h1.slot(o, j)) by {
            if j != i {
                assert(h1.slot(o, j) == h.slot(o, j));
                assert(b.known(h.slot(o, j)));
            }
        }
    }
    lemma_sound_but_one(b, h1, o);
    assert forall|a: int| #[trigger] b.lists(a) implies h1.hdr(a) == h.hdr(a) && h1.nslots(a)
        == h.nslots(a) by {
        if a != o {
            assert(same_object(h, h1, a));
        }
    }
    assert forall|a: int, j: int|
        b.lists(a) && 0 <= j < h.nslots(a) && (a != o || j != i) implies #[trigger] h1.slot(a, j)
        == h.slot(a, j) by {
        if a != o {
            assert(same_object(h, h1, a));
        }
    }
}

/// A heap stays sound when a word of a byte object is written.
#[verifier::rlimit(60)]
pub proof fn law_bytes_keep_heap_sound(b: Objects, o: int, i: int, w: u64)
    requires
        b.sound(),
        b.lists(o),
        b.heap.hdr(o).byte_format(),
        0 <= i < b.heap.nslots(o),
    ensures
        with_heap(b, b.heap.write(o + 8 + 8 * i, w)).sound(),
        b.heap.write(o + 8 + 8 * i, w).layout() == b.heap.layout(),
        b.heap.write(o + 8 + 8 * i, w).ssb == b.heap.ssb,
        forall|a: int| #[trigger]
            b.lists(a) ==> b.heap.write(o + 8 + 8 * i, w).hdr(a) == b.heap.hdr(a) && b.heap.write(
                o + 8 + 8 * i,
                w,
            ).nslots(a) == b.heap.nslots(a),
{
    let h = b.heap;
    let x = o + 8 + 8 * i;
    let h1 = h.write(x, w);
    lemma_lies(b, o);
    lemma_others(b, o, x, w);
    assert(h.wf()) by {
        reveal(Objects::sound);
    }
    lemma_reads_after_write(h, x, w);
    assert(h1.read(o) == h.read(o));
    if h.has_over(o) {
        assert(h.plausible(o - 8));
        assert(h1.read(o - 8) == h.read(o - 8));
    }
    assert(h1.read(o) & 1 == 0) by {
        reveal(Objects::sound);
    }
    lemma_sound_but_one(b, h1, o);
    assert forall|a: int| #[trigger] b.lists(a) implies h1.hdr(a) == h.hdr(a) && h1.nslots(a)
        == h.nslots(a) by {
        if a != o {
            assert(same_object(h, h1, a));
        }
    }
}

/// A heap stays sound when a header is replaced by one of the same class,
/// format and size without the mark.
#[verifier::rlimit(60)]
pub proof fn law_headers_keep_heap_sound(b: Objects, o: int, hd: Header)
    requires
        b.sound(),
        b.lists(o),
        hd.class_field() == b.heap.hdr(o).class_field(),
        hd.format_field() == b.heap.hdr(o).format_field(),
        hd.nslots_field() == b.heap.hdr(o).nslots_field(),
        hd.0 & 1 == 0,
    ensures
        with_heap(b, b.heap.write(o, hd.0)).sound(),
        b.heap.write(o, hd.0).layout() == b.heap.layout(),
        b.heap.write(o, hd.0).ssb == b.heap.ssb,
        b.heap.write(o, hd.0).hdr(o) == hd,
        forall|a: int| #[trigger]
            b.lists(a) ==> b.heap.write(o, hd.0).hdr(a).format_field() == b.heap.hdr(
                a,
            ).format_field() && b.heap.write(o, hd.0).hdr(a).class_field() == b.heap.hdr(
                a,
            ).class_field() && b.heap.write(o, hd.0).nslots(a) == b.heap.nslots(a) && (a != o
                ==> b.heap.write(o, hd.0).read(a) == b.heap.read(a)),
        forall|a: int, j: int|
            b.lists(a) && 0 <= j < b.heap.nslots(a) ==> #[trigger] b.heap.write(o, hd.0).slot(a, j)
                == b.heap.slot(a, j),
{
    let h = b.heap;
    let h1 = h.write(o, hd.0);
    lemma_lies(b, o);
    lemma_others(b, o, o, hd.0);
    assert(h.wf()) by {
        reveal(Objects::sound);
    }
    lemma_reads_after_write(h, o, hd.0);
    if h.has_over(o) {
        assert(h.plausible(o - 8));
        assert(h1.read(o - 8) == h.read(o - 8));
    }
    assert forall|j: int| 0 <= j < h.nslots(o) implies #[trigger] h1.slot(o, j) == h.slot(o, j) by {
        assert(h.plausible(o + 8 + 8 * j));
    }
    assert(b.has(o) && !h.hdr(o).byte_format() ==> forall|j: int|
        0 <= j < h.nslots(o) ==> b.known(#[trigger] h.slot(o, j))) by {
        reveal(Objects::sound);
    }
    if b.has(o) && !h.hdr(o).byte_format() {
        assert forall|j: int| 0 <= j < h.nslots(o) implies b.known(#[trigger] h1.slot(o, j)) by {
            assert(h1.slot(o, j) == h.slot(o, j));
            assert(b.known(h.slot(o, j)));
        }
    }
    lemma_sound_but_one(b, h1, o);
    assert forall|a: int| #[trigger] b.lists(a) implies h1.hdr(a).format_field() == h.hdr(
        a,
    ).format_field() && h1.hdr(a).class_field() == h.hdr(a).class_field() && h1.nslots(a)
        == h.nslots(a) && (a != o ==> h1.read(a) == h.read(a)) by {
        if a != o {
            assert(same_object(h, h1, a));
        }
    }
    assert forall|a: int, j: int|
        b.lists(a) && 0 <= j < h.nslots(a) implies #[trigger] h1.slot(a, j) == h.slot(a, j) by {
        if a != o {
            assert(same_object(h, h1, a));
        }
    }
}

/// What is asked of an allocation so that the heap stays sound: the new
/// object's slots hold a known value, or it is a byte object.
pub open spec fn fills_known(b: Objects, x: Wanted) -> bool {
    &&& x.ok()
    &&& x.format >= 8 || x.slots == 0 || (x.fill matches Some(w) && b.known(Value(w)))
}

/// What an allocation leaves of the objects that were there, and what it
/// gives.
pub open spec fn object_added(b: Objects, h1: HeapView, a: int, x: Wanted) -> bool {
    &&& h1.layout() == b.heap.layout()
    &&& h1.ssb == b.heap.ssb
    &&& 0 <= a <= usize::MAX
    &&& !b.lists(a)
    &&& h1.nslots(a) == x.slots
    &&& h1.hdr(a).format_field() == x.format
    &&& h1.hdr(a).class_field() == x.class_index
    &&& h1.hdr(a).gc_field() == 0
    &&& x.fill matches Some(w) ==> forall|i: int|
        0 <= i < x.slots ==> #[trigger] h1.slot(a, i) == Value(w)
    &&& forall|o: int| #[trigger]
        b.lists(o) ==> h1.read(o) == b.heap.read(o) && h1.nslots(o) == b.heap.nslots(o)
    &&& forall|o: int, i: int|
        b.lists(o) && 0 <= i < b.heap.nslots(o) ==> #[trigger] h1.slot(o, i) == b.heap.slot(o, i)
}

/// The objects of one space keep their words while one is added elsewhere.
#[verifier::rlimit(60)]
proof fn lemma_added(b: Objects, h1: HeapView, a: int, x: Wanted, start: int)
    requires
        b.sound(),
        h1.layout() == b.heap.layout(),
        start <= a,
        forall|o: int| #[trigger]
            b.lists(o) ==> fin(b.heap, o) <= start || a + 8 + 8 * x.slots <= b.heap.storage_start(o),
        0 <= x.slots,
        forall|y: int|
            b.heap.plausible(y) && !(start <= y < a + 8 + 8 * x.slots) ==> #[trigger] h1.read(y)
                == b.heap.read(y),
    ensures
        !b.lists(a),
        forall|o: int| #[trigger] b.lists(o) ==> same_object(b.heap, h1, o),
        forall|o: int| #[trigger]
            b.lists(o) ==> h1.read(o) == b.heap.read(o) && h1.nslots(o) == b.heap.nslots(o),
        forall|o: int, i: int|
            b.lists(o) && 0 <= i < b.heap.nslots(o) ==> #[trigger] h1.slot(o, i) == b.heap.slot(
                o,
                i,
            ),
{
    let h = b.heap;
    assert forall|o: int| #[trigger] b.lists(o) implies same_object(h, h1, o) && h1.read(o)
        == h.read(o) && h1.nslots(o) == h.nslots(o) && forall|i: int|
        0 <= i < h.nslots(o) ==> #[trigger] h1.slot(o, i) == h.slot(o, i) by {
        lemma_lies(b, o);
        assert(h1.read(o) == h.read(o));
        if h.has_over(o) {
            assert(h.plausible(o - 8));
        }
        assert forall|i: int| 0 <= i < h.nslots(o) implies #[trigger] h1.slot(o, i) == h.slot(
            o,
            i,
        ) by {
            assert(h.plausible(o + 8 + 8 * i));
            assert(h1.read(o + 8 + 8 * i) == h.read(o + 8 + 8 * i));
        }
    }
    if b.lists(a) {
        lemma_lies(b, a);
    }
}

/// An allocation in old space keeps the heap sound, with the new object the
/// last of old space.
#[verifier::rlimit(60)]
#[verifier::spinoff_prover]
pub proof fn law_old_allocation_keeps_heap_sound(b: Objects, x: Wanted)
    requires
        b.sound(),
        fills_known(b, x),
        b.heap.old.fits(crate::heap::words_for(x.slots)),
    ensures
        b.heap.alloc_old(x.class_index, x.format, x.slots, x.fill, x.large) matches Some((h1, a))
            && object_added(b, h1, a, x) && h1.tenured(a) && (Objects {
            heap: h1,
            old: b.old.push(a as usize),
            ..b
        }).sound(),
{
    let h = b.heap;
    assert(h.wf() && h.to.alloc == 0 && tiles(h, b.young, h.from.base, h.from.top()) && tiles(
        h,
        b.old,
        h.old.base,
        h.old.top(),
    )) by {
        reveal(Objects::sound);
    }
    crate::objects::law_alloc_old(h, x.class_index, x.format, x.slots, x.fill, x.large);
    lemma_old_shape(h, x);
    let (h1, a) = h.alloc_old(x.class_index, x.format, x.slots, x.fill, x.large)->0;
    let start = h.old.top();
    assert forall|o: int| #[trigger] b.lists(o) implies fin(h, o) <= start || a + 8 + 8 * x.slots
        <= h.storage_start(o) by {
        lemma_lies(b, o);
    }
    lemma_added(b, h1, a, x, start);
    assert forall|k: int| 0 <= k < b.young.len() implies same_size(
        h,
        h1,
        (#[trigger] b.young[k]) as int,
    ) by {
        assert(listed(b.young, b.young[k] as int));
        assert(b.lists(b.young[k] as int));
        assert(same_object(h, h1, b.young[k] as int));
    }
    lemma_tiles_kept(h, h1, b.young, h.from.base, h.from.top());
    assert forall|i: int| 0 <= i < b.old.len() implies headed(h, (#[trigger] b.old[i]) as int) by {
        assert(listed(b.old, b.old[i] as int));
        assert(b.lists(b.old[i] as int));
        reveal(Objects::sound);
    }
    lemma_one_added(h, h1, b.old, h.old.base, h.old.top(), a);
    let b1 = Objects { heap: h1, old: b.old.push(a as usize), ..b };
    crate::graph::lemma_listed_push(b.old, a as usize);
    crate::graph::lemma_low_bit(h1.read(a));
    lemma_one_more_sound(b, b1, a, x);
}

/// An allocation in young space keeps the heap sound, with the new object the
/// last of young space.
#[verifier::rlimit(60)]
#[verifier::spinoff_prover]
pub proof fn law_young_allocation_keeps_heap_sound(b: Objects, x: Wanted)
    requires
        b.sound(),
        fills_known(b, x),
        b.heap.from.fits(crate::heap::words_for(x.slots)),
    ensures
        b.heap.alloc_young(x.class_index, x.format, x.slots, x.fill) matches Some((h1, a))
            && object_added(b, h1, a, x) && h1.young(a) && (Objects {
            heap: h1,
            young: b.young.push(a as usize),
            live: b.live.insert(a),
            ..b
        }).sound(),
{
    let h = b.heap;
    assert(h.wf() && h.to.alloc == 0 && tiles(h, b.young, h.from.base, h.from.top()) && tiles(
        h,
        b.old,
        h.old.base,
        h.old.top(),
    )) by {
        reveal(Objects::sound);
    }
    crate::objects::law_alloc_young(h, x.class_index, x.format, x.slots, x.fill);
    lemma_young_shape(h, x);
    let (h1, a) = h.alloc_young(x.class_index, x.format, x.slots, x.fill)->0;
    let start = h.from.top();
    assert forall|o: int| #[trigger] b.lists(o) implies fin(h, o) <= start || a + 8 + 8 * x.slots
        <= h.storage_start(o) by {
        lemma_lies(b, o);
    }
    lemma_added(b, h1, a, x, start);
    assert forall|k: int| 0 <= k < b.old.len() implies same_size(
        h,
        h1,
        (#[trigger] b.old[k]) as int,
    ) by {
        assert(listed(b.old, b.old[k] as int));
        assert(b.lists(b.old[k] as int));
        assert(same_object(h, h1, b.old[k] as int));
    }
    lemma_tiles_kept(h, h1, b.old, h.old.base, h.old.top());
    assert forall|i: int| 0 <= i < b.young.len() implies headed(
        h,
        (#[trigger] b.young[i]) as int,
    ) by {
        assert(listed(b.young, b.young[i] as int));
        assert(b.lists(b.young[i] as int));
        reveal(Objects::sound);
    }
    lemma_one_added(h, h1, b.young, h.from.base, h.from.top(), a);
    let b1 = Objects {
        heap: h1,
        young: b.young.push(a as usize),
        live: b.live.insert(a),
        ..b
    };
    crate::graph::lemma_listed_push(b.young, a as usize);
    crate::graph::lemma_low_bit(h1.read(a));
    lemma_one_more_sound(b, b1, a, x);
}

/// A heap with one more object is sound.
#[verifier::rlimit(60)]
#[verifier::spinoff_prover]
proof fn lemma_one_more_sound(b: Objects, b1: Objects, a: int, x: Wanted)
    requires
        b.sound(),
        fills_known(b, x),
        object_added(b, b1.heap, a, x),
        b1.heap.wf(),
        b1.heap.to.alloc == 0,
        tiles(b1.heap, b1.young, b1.heap.from.base, b1.heap.from.top()),
        tiles(b1.heap, b1.old, b1.heap.old.base, b1.heap.old.top()),
        headed(b1.heap, a),
        b1.heap.read(a) & 1 == 0,
        forall|o: int| #[trigger] b.lists(o) ==> same_object(b.heap, b1.heap, o),
        forall|o: int| #[trigger] b1.lists(o) <==> b.lists(o) || o == a,
        forall|o: int| #[trigger] b1.has(o) <==> b.has(o) || o == a,
    ensures
        b1.sound(),
{
    let h = b.heap;
    let h1 = b1.heap;
    assert forall|o: int| #[trigger] b1.lists(o) implies h1.read(o) & 1 == 0 && headed(h1, o) by {
        if o != a {
            assert(b.lists(o));
            assert(same_object(h, h1, o));
            assert(h.read(o) & 1 == 0 && headed(h, o)) by {
                reveal(Objects::sound);
            }
        }
    }
    assert forall|o: int, i: int|
        b1.has(o) && !h1.hdr(o).byte_format() && 0 <= i < h1.nslots(o) implies b1.known(
        #[trigger] h1.slot(o, i),
    ) by {
        if o == a {
            assert(h1.slot(a, i) == Value(x.fill->0));
            assert(b.known(Value(x.fill->0)));
            let v = h1.slot(o, i);
            if v.tagged_ptr() && h1.plausible(v.addr()) {
                assert(b.has(v.addr()));
                assert(b1.has(v.addr()));
            }
        } else {
            assert(b.has(o) && b.lists(o));
            assert(same_object(h, h1, o));
            assert(h1.slot(o, i) == h.slot(o, i));
            assert(b.known(h.slot(o, i))) by {
                reveal(Objects::sound);
            }
            let v = h1.slot(o, i);
            if v.tagged_ptr() && h1.plausible(v.addr()) {
                assert(b.has(v.addr()));
                assert(b1.has(v.addr()));
            }
        }
    }
    reveal(Objects::sound);
}

} // verus!
