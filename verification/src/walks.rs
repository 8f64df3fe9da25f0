//! A walk over a region that allocations filled finds what they gave.

use crate::graph::{
    fin, headed, lemma_tiles_kept, lemma_tiles_more, lemma_within, listed, same_size, tiles,
};
use crate::heap::{Header, HeapView, MAX_CLASS_INDEX};
use crate::objects::{law_alloc_old, law_alloc_young};
use vstd::prelude::*;

verus! {

/// A walk over a region that whole objects fill, one after the other, finds
/// them in address order: the headers, and no overflow word.
pub proof fn law_walk_finds_objects(h: HeapView, objs: Seq<usize>, p: int, top: int)
    requires
        tiles(h, objs, p, top),
        forall|i: int| 0 <= i < objs.len() ==> headed(h, (#[trigger] objs[i]) as int),
    ensures
        h.walk(p, top) == Some(objs),
{
    crate::sliding::lemma_walk(h, objs, p, top);
}

/// An object asked for.
pub struct Wanted {
    pub class_index: u32,
    pub format: u64,
    pub slots: int,
    pub fill: Option<u64>,
    pub large: bool,
}

impl Wanted {
    pub open spec fn ok(self) -> bool {
        &&& 0 < self.class_index <= MAX_CLASS_INDEX
        &&& self.format <= 15
        &&& 0 <= self.slots < 0x400_0000_0000
    }
}

/// The heap after the first `k` allocations in old space, and what they gave;
/// `None` when one did not fit.
pub open spec fn filled_old(h: HeapView, list: Seq<Wanted>, k: int) -> Option<
    (HeapView, Seq<usize>),
>
    decreases k,
{
    if k <= 0 {
        Some((h, Seq::empty()))
    } else {
        let x = list[k - 1];
        match filled_old(h, list, k - 1) {
            None => None,
            Some((h1, objs)) => match h1.alloc_old(
                x.class_index,
                x.format,
                x.slots,
                x.fill,
                x.large,
            ) {
                None => None,
                Some((h2, a)) => Some((h2, objs.push(a as usize))),
            },
        }
    }
}

/// The heap after the first `k` allocations in young space, and what they
/// gave; `None` when one did not fit.
pub open spec fn filled_young(h: HeapView, list: Seq<Wanted>, k: int) -> Option<
    (HeapView, Seq<usize>),
>
    decreases k,
{
    if k <= 0 {
        Some((h, Seq::empty()))
    } else {
        let x = list[k - 1];
        match filled_young(h, list, k - 1) {
            None => None,
            Some((h1, objs)) => match h1.alloc_young(x.class_index, x.format, x.slots, x.fill) {
                None => None,
                Some((h2, a)) => Some((h2, objs.push(a as usize))),
            },
        }
    }
}

/// A word below the class bits has none.
pub(crate) proof fn lemma_no_class_bits(m: u64)
    requires
        m < 0x400_0000_0000,
    ensures
        m >> 42u64 == 0,
{
    assert(m >> 42u64 == 0) by (bit_vector)
        requires
            m < 0x400_0000_0000,
    ;
}

/// Objects with headers that tell them from overflow words fill a region.
pub open spec fn walkable(h: HeapView, objs: Seq<usize>, p: int, top: int) -> bool {
    &&& tiles(h, objs, p, top)
    &&& forall|i: int| 0 <= i < objs.len() ==> headed(h, (#[trigger] objs[i]) as int)
}

/// A region stays filled when an object is added at its end and the words of
/// the others are kept.
#[verifier::rlimit(60)]
pub(crate) proof fn lemma_one_added(h: HeapView, r: HeapView, objs: Seq<usize>, p: int, top: int, a: int)
    requires
        h.wf(),
        p <= top,
        walkable(h, objs, p, top),
        r.layout() == h.layout(),
        r.whole(a),
        r.storage_start(a) == top,
        headed(r, a),
        0 <= a <= usize::MAX,
        forall|x: int| h.plausible(x) && p <= x < top ==> #[trigger] r.read(x) == h.read(x),
    ensures
        walkable(r, objs.push(a as usize), p, fin(r, a)),
{
    let t = objs.push(a as usize);
    assert forall|k: int| 0 <= k < objs.len() implies same_size(h, r, (#[trigger] objs[k]) as int)
        && headed(r, objs[k] as int) by {
        let o = objs[k] as int;
        assert(listed(objs, objs[k] as int));
        lemma_within(h, objs, p, top, o);
        assert(headed(h, objs[k] as int));
        assert(r.read(o) == h.read(o));
        if h.has_over(o) {
            assert(r.read(o - 8) == h.read(o - 8));
        }
    }
    lemma_tiles_kept(h, r, objs, p, top);
    lemma_tiles_more(r, objs, p, top, a as usize);
    assert forall|i: int| 0 <= i < t.len() implies headed(r, (#[trigger] t[i]) as int) by {
        if i < objs.len() {
            assert(t[i] == objs[i]);
        }
    }
}

/// After any allocations in an empty old space a walk over it finds the
/// objects that they gave, in order.
#[verifier::rlimit(60)]
pub proof fn law_walk_finds_old_allocations(h: HeapView, list: Seq<Wanted>, k: int)
    requires
        h.wf(),
        h.old.alloc == 0,
        0 <= k <= list.len(),
        forall|i: int| 0 <= i < k ==> (#[trigger] list[i]).ok(),
    ensures
        filled_old(h, list, k) matches Some((r, objs)) ==> {
            &&& objs.len() == k
            &&& r.wf()
            &&& walkable(r, objs, r.old.base, r.old.top())
            &&& r.walk(r.old.base, r.old.top()) == Some(objs)
        },
    decreases k,
{
    if k > 0 {
        law_walk_finds_old_allocations(h, list, k - 1);
        let x = list[k - 1];
        assert(x.ok());
        if let Some((h1, objs)) = filled_old(h, list, k - 1) {
            if let Some((r, a)) = h1.alloc_old(x.class_index, x.format, x.slots, x.fill, x.large) {
                law_alloc_old(h1, x.class_index, x.format, x.slots, x.fill, x.large);
                lemma_old_shape(h1, x);
                lemma_one_added(h1, r, objs, h1.old.base, h1.old.top(), a);
            }
        }
    }
    if let Some((r, objs)) = filled_old(h, list, k) {
        law_walk_finds_objects(r, objs, r.old.base, r.old.top());
    }
}

pub(crate) proof fn lemma_old_shape(h: HeapView, x: Wanted)
    requires
        h.wf(),
        x.ok(),
        h.old.fits(crate::heap::words_for(x.slots)),
    ensures
        h.alloc_old(x.class_index, x.format, x.slots, x.fill, x.large) matches Some((r, a)) && {
            &&& r.storage_start(a) == h.old.top()
            &&& fin(r, a) == r.old.top()
            &&& r.old.base == h.old.base
            &&& headed(r, a)
            &&& 0 <= a <= usize::MAX
        },
{
    law_alloc_old(h, x.class_index, x.format, x.slots, x.fill, x.large);
    let (r, a) = h.alloc_old(x.class_index, x.format, x.slots, x.fill, x.large)->0;
    let f: u64 = if x.slots >= 255 {
        255
    } else {
        x.slots as u64
    };
    crate::heap::lemma_packed_fields(x.class_index as u64, x.format, f);
    lemma_no_class_bits(x.slots as u64);
    reveal(HeapView::read);
    assert(r.read(a) == Header::packed(x.class_index as u64, x.format, f).0);
    if x.slots >= 255 {
        assert(r.read(a - 8) == x.slots as u64);
    }
}

/// After any allocations in an empty young space a walk over it finds the
/// objects that they gave, in order.
#[verifier::rlimit(60)]
pub proof fn law_walk_finds_young_allocations(h: HeapView, list: Seq<Wanted>, k: int)
    requires
        h.wf(),
        h.from.alloc == 0,
        0 <= k <= list.len(),
        forall|i: int| 0 <= i < k ==> (#[trigger] list[i]).ok(),
    ensures
        filled_young(h, list, k) matches Some((r, objs)) ==> {
            &&& objs.len() == k
            &&& r.wf()
            &&& walkable(r, objs, r.from.base, r.from.top())
            &&& r.walk(r.from.base, r.from.top()) == Some(objs)
        },
    decreases k,
{
    if k > 0 {
        law_walk_finds_young_allocations(h, list, k - 1);
        let x = list[k - 1];
        assert(x.ok());
        if let Some((h1, objs)) = filled_young(h, list, k - 1) {
            if let Some((r, a)) = h1.alloc_young(x.class_index, x.format, x.slots, x.fill) {
                law_alloc_young(h1, x.class_index, x.format, x.slots, x.fill);
                lemma_young_shape(h1, x);
                lemma_one_added(h1, r, objs, h1.from.base, h1.from.top(), a);
            }
        }
    }
    if let Some((r, objs)) = filled_young(h, list, k) {
        law_walk_finds_objects(r, objs, r.from.base, r.from.top());
    }
}

pub(crate) proof fn lemma_young_shape(h: HeapView, x: Wanted)
    requires
        h.wf(),
        x.ok(),
        h.from.fits(crate::heap::words_for(x.slots)),
    ensures
        h.alloc_young(x.class_index, x.format, x.slots, x.fill) matches Some((r, a)) && {
            &&& r.storage_start(a) == h.from.top()
            &&& fin(r, a) == r.from.top()
            &&& r.from.base == h.from.base
            &&& headed(r, a)
            &&& 0 <= a <= usize::MAX
        },
{
    law_alloc_young(h, x.class_index, x.format, x.slots, x.fill);
    let (r, a) = h.alloc_young(x.class_index, x.format, x.slots, x.fill)->0;
    let f: u64 = if x.slots >= 255 {
        255
    } else {
        x.slots as u64
    };
    crate::heap::lemma_packed_fields(x.class_index as u64, x.format, f);
    lemma_no_class_bits(x.slots as u64);
    reveal(HeapView::read);
    assert(r.read(a) == Header::packed(x.class_index as u64, x.format, f).0);
    if x.slots >= 255 {
        assert(r.read(a - 8) == x.slots as u64);
    }
}

} // verus!
