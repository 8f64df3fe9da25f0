//! What stores and allocations do to the objects of a heap.

use crate::heap::{HeapView, MAX_CLASS_INDEX};
use crate::value::Value;
use vstd::prelude::*;

verus! {

/// A store keeps the heap well formed and its spaces in place, reads back,
/// and changes no other word.
pub proof fn law_read_after_write(h: HeapView, a: int, w: u64)
    requires
        h.wf(),
        h.plausible(a),
    ensures
        h.write(a, w).wf(),
        h.write(a, w).layout() == h.layout(),
        h.write(a, w).read(a) == w,
        forall|b: int| b != a && h.plausible(b) ==> #[trigger] h.write(a, w).read(b) == h.read(b),
{
    reveal(HeapView::read);
    reveal(HeapView::write);
}

/// A store leaves everything but the words of the spaces as it is.
pub proof fn lemma_write_frame(h: HeapView, a: int, w: u64)
    ensures
        h.write(a, w).ssb == h.ssb,
        h.write(a, w).config == h.config,
        h.write(a, w).from.alloc == h.from.alloc,
        h.write(a, w).to.alloc == h.to.alloc,
        h.write(a, w).old.alloc == h.old.alloc,
        h.write(a, w).from.base == h.from.base,
        h.write(a, w).to.base == h.to.base,
        h.write(a, w).old.base == h.old.base,
        h.write(a, w).from.mem.len() == h.from.mem.len(),
        h.write(a, w).to.mem.len() == h.to.mem.len(),
        h.write(a, w).old.mem.len() == h.old.mem.len(),
        h.wf() ==> h.write(a, w).wf(),
        h.write(a, w).layout() == h.layout(),
{
    reveal(HeapView::write);
}

/// What an allocation of `n` slots gives: `h1` holds a new whole object at
/// `a` with the fields asked for, and every word that lay outside of it is
/// as it was.
pub open spec fn fresh_object(
    h: HeapView,
    h1: HeapView,
    a: int,
    class_index: u32,
    format: u64,
    n: int,
    fill: Option<u64>,
) -> bool {
    let start = a - 8 * (crate::heap::words_for(n) - n - 1);
    &&& h1.wf()
    &&& h1.layout() == h.layout()
    &&& h1.ssb == h.ssb
    &&& h1.whole(a)
    &&& a % 8 == 0
    &&& h1.nslots(a) == n
    &&& h1.hdr(a).class_field() == class_index
    &&& h1.hdr(a).format_field() == format
    &&& h1.hdr(a).hash_field() == 0
    &&& h1.hdr(a).gc_field() == 0
    &&& fill matches Some(w) ==> forall|i: int|
        0 <= i < n ==> #[trigger] h1.slot(a, i) == Value(w)
    &&& forall|b: int|
        h.plausible(b) && !(start <= b < a + 8 + 8 * n) ==> #[trigger] h1.read(b) == h.read(b)
}

/// An old allocation makes a fresh object at the top of old space.
pub proof fn law_alloc_old(
    h: HeapView,
    class_index: u32,
    format: u64,
    n: int,
    fill: Option<u64>,
    large: bool,
)
    requires
        h.wf(),
        0 <= n,
        class_index <= MAX_CLASS_INDEX,
        format <= 15,
        h.old.fits(crate::heap::words_for(n)),
    ensures
        h.alloc_old(class_index, format, n, fill, large) matches Some((h1, a)) && fresh_object(
            h,
            h1,
            a,
            class_index,
            format,
            n,
            fill,
        ) && h.tenured(a) && h.old.top() <= a && h1.old.alloc == h.old.alloc
            + crate::heap::words_for(n) && h1.from == h.from && h1.to == h.to,
{
    reveal(HeapView::read);
    crate::heap::lemma_packed_fields(
        class_index as u64,
        format,
        if n >= 255 {
            255u64
        } else {
            n as u64
        },
    );
}

/// A young allocation makes a fresh object at the top of from-space.
pub proof fn law_alloc_young(
    h: HeapView,
    class_index: u32,
    format: u64,
    n: int,
    fill: Option<u64>,
)
    requires
        h.wf(),
        0 <= n,
        class_index <= MAX_CLASS_INDEX,
        format <= 15,
        h.from.fits(crate::heap::words_for(n)),
    ensures
        h.alloc_young(class_index, format, n, fill) matches Some((h1, a)) && fresh_object(
            h,
            h1,
            a,
            class_index,
            format,
            n,
            fill,
        ) && h.young(a) && h.from.top() <= a && h1.from.alloc == h.from.alloc
            + crate::heap::words_for(n) && h1.old == h.old && h1.to == h.to,
{
    reveal(HeapView::read);
    crate::heap::lemma_packed_fields(
        class_index as u64,
        format,
        if n >= 255 {
            255u64
        } else {
            n as u64
        },
    );
}

} // verus!
