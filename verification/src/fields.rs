//! Which fields of the machine's objects an operation changes.

use crate::heap::HeapView;
use crate::queues::{
    laid_out, lemma_apart_all, lemma_field, lemma_field_stored, lemma_header_aside,
    lemma_slot_stored, roomy,
};
use crate::graph::listed;
use crate::value::Value;
use crate::vm::VmView;
use vstd::prelude::*;

verus! {

/// The classes of two machines' objects are the same, and so are their fields
/// but for some.
pub open spec fn same_but(
    v: VmView,
    w: VmView,
    young: Seq<usize>,
    old: Seq<usize>,
    changed: Set<(Value, int)>,
) -> bool {
    &&& laid_out(w.heap, young, old)
    &&& w.specials == v.specials
    &&& forall|a: int|
        listed(young, a) || listed(old, a) ==> (#[trigger] w.heap.hdr(a)).class_field()
            == v.heap.hdr(a).class_field()
    &&& forall|a: Value, j: int|
        #![trigger roomy(v.heap, young, old, a.addr(), j)]
        #![trigger roomy(w.heap, young, old, a.addr(), j)]
        roomy(v.heap, young, old, a.addr(), j) == roomy(w.heap, young, old, a.addr(), j)
    &&& forall|a: Value, j: int|
        roomy(v.heap, young, old, a.addr(), j) && !changed.contains((a, j)) ==> #[trigger] w.field(
            a,
            j,
        ) == v.field(a, j)
}

pub(crate) proof fn lemma_same_but_on(
    u: VmView,
    v: VmView,
    w: VmView,
    young: Seq<usize>,
    old: Seq<usize>,
    s: Set<(Value, int)>,
    t: Set<(Value, int)>,
)
    requires
        same_but(u, v, young, old, s),
        same_but(v, w, young, old, t),
    ensures
        same_but(u, w, young, old, s.union(t)),
{
    assert forall|a: int| listed(young, a) || listed(old, a) implies (#[trigger] w.heap.hdr(
        a,
    )).class_field() == u.heap.hdr(a).class_field() by {
        assert(v.heap.hdr(a).class_field() == u.heap.hdr(a).class_field());
    }
    assert forall|a: Value, j: int|
        #![trigger roomy(u.heap, young, old, a.addr(), j)]
        #![trigger roomy(w.heap, young, old, a.addr(), j)]
        roomy(u.heap, young, old, a.addr(), j) == roomy(w.heap, young, old, a.addr(), j) by {
        assert(roomy(u.heap, young, old, a.addr(), j) == roomy(v.heap, young, old, a.addr(), j));
    }
    assert forall|a: Value, j: int|
        roomy(u.heap, young, old, a.addr(), j) && !s.union(t).contains((a, j)) implies #[trigger] w.field(
        a,
        j,
    ) == u.field(a, j) by {
        assert(roomy(v.heap, young, old, a.addr(), j));
        assert(v.field(a, j) == u.field(a, j));
    }
}

/// One more field may change.
pub(crate) proof fn lemma_same_but_more(
    v: VmView,
    w: VmView,
    young: Seq<usize>,
    old: Seq<usize>,
    s: Set<(Value, int)>,
    t: Set<(Value, int)>,
)
    requires
        same_but(v, w, young, old, s),
        s.subset_of(t),
    ensures
        same_but(v, w, young, old, t),
{
}

pub(crate) proof fn lemma_same_but_self(v: VmView, w: VmView, young: Seq<usize>, old: Seq<usize>)
    requires
        laid_out(v.heap, young, old),
        w.heap == v.heap,
        w.specials == v.specials,
    ensures
        same_but(v, w, young, old, Set::empty()),
{
    reveal(VmView::field);
}

/// A store into a slot changes no header.
proof fn lemma_headers_aside(
    h: HeapView,
    young: Seq<usize>,
    old: Seq<usize>,
    o: int,
    i: int,
    x: Value,
)
    requires
        laid_out(h, young, old),
        roomy(h, young, old, o, i),
    ensures
        forall|a: int|
            listed(young, a) || listed(old, a) ==> #[trigger] h.set_slot(o, i, x).hdr(a) == h.hdr(a),
{
    lemma_apart_all(h, young, old, o, o);
    let y = o + 8 + 8 * i;
    assert(h.plausible(y));
    crate::graph::lemma_reads_after_write(h, y, x.0);
    let r = h.set_slot(o, i, x);
    assert forall|a: int| listed(young, a) || listed(old, a) implies #[trigger] r.hdr(a) == h.hdr(a) by {
        lemma_apart_all(h, young, old, a, o);
        assert(a != y);
        assert(r.read(a) == h.read(a));
    }
}

/// A field set without the write barrier.
#[verifier::rlimit(40)]
pub(crate) proof fn lemma_field_set(
    v: VmView,
    young: Seq<usize>,
    old: Seq<usize>,
    o: Value,
    i: int,
    x: Value,
)
    requires
        laid_out(v.heap, young, old),
        roomy(v.heap, young, old, o.addr(), i),
    ensures
        same_but(v, v.with_field(o, i, x), young, old, set![(o, i)]),
        v.with_field(o, i, x).field(o, i) == x,
        v.with_field(o, i, x) == v.on_heap(v.with_field(o, i, x).heap),
{
    lemma_field(v, young, old, o, i);
    reveal(VmView::with_field);
    lemma_slot_stored(v.heap, young, old, o.addr(), i, x);
    let w = v.with_field(o, i, x);
    let h = v.heap;
    let r = w.heap;
    lemma_headers_aside(h, young, old, o.addr(), i, x);
    assert forall|a: Value, j: int|
        #![trigger roomy(h, young, old, a.addr(), j)]
        #![trigger roomy(r, young, old, a.addr(), j)]
        roomy(h, young, old, a.addr(), j) == roomy(r, young, old, a.addr(), j) by {
        if listed(young, a.addr()) || listed(old, a.addr()) {
            assert(r.nslots(a.addr()) == h.nslots(a.addr()));
        }
    }
    assert(roomy(r, young, old, o.addr(), i));
    lemma_field(w, young, old, o, i);
    assert forall|a: Value, j: int|
        roomy(h, young, old, a.addr(), j) && !set![(o, i)].contains((a, j)) implies #[trigger] w.field(
        a,
        j,
    ) == v.field(a, j) by {
        assert(roomy(r, young, old, a.addr(), j));
        lemma_field(v, young, old, a, j);
        lemma_field(w, young, old, a, j);
        assert(r.slot(a.addr(), j) == h.slot(a.addr(), j));
    }
}

/// A field stored with the write barrier.
pub(crate) proof fn lemma_field_kept(
    v: VmView,
    young: Seq<usize>,
    old: Seq<usize>,
    o: Value,
    i: int,
    x: Value,
)
    requires
        laid_out(v.heap, young, old),
        roomy(v.heap, young, old, o.addr(), i),
    ensures
        same_but(v, v.with_stored(o, i, x), young, old, set![(o, i)]),
        v.with_stored(o, i, x).field(o, i) == x,
        v.with_stored(o, i, x) == v.on_heap(v.with_stored(o, i, x).heap),
{
    lemma_field_stored(v, young, old, o, i, x);
    let w = v.with_stored(o, i, x);
    assert(w == v.on_heap(w.heap)) by {
        reveal(VmView::with_stored);
    }
    assert forall|a: int| listed(young, a) || listed(old, a) implies (#[trigger] w.heap.hdr(
        a,
    )).class_field() == v.heap.hdr(a).class_field() by {
        lemma_field(v, young, old, o, i);
        reveal(VmView::with_stored);
        lemma_headers_aside(v.heap, young, old, o.addr(), i, x);
        lemma_slot_stored(v.heap, young, old, o.addr(), i, x);
        lemma_barrier_classes(v.heap.set_slot(o.addr(), i, x), young, old, o.addr(), x, a);
    }
    assert forall|a: Value, j: int|
        roomy(v.heap, young, old, a.addr(), j) && !set![(o, i)].contains((a, j)) implies #[trigger] w.field(
        a,
        j,
    ) == v.field(a, j) by {
        assert(!(a == o && j == i));
    }
}

/// Noting an object in the remembered set changes no class.
proof fn lemma_noted_classes(h: HeapView, young: Seq<usize>, old: Seq<usize>, o: int, a: int)
    requires
        laid_out(h, young, old),
        listed(young, o) || listed(old, o),
        listed(young, a) || listed(old, a),
    ensures
        h.remembered(o).hdr(a).class_field() == h.hdr(a).class_field(),
{
    lemma_apart_all(h, young, old, o, o);
    lemma_apart_all(h, young, old, a, a);
    if !h.is_remembered(o) {
        let hd = h.hdr(o);
        let g = hd.gc_field();
        crate::heap::lemma_header_update(hd, 0, 0);
        crate::survival::lemma_remembered_bits(g);
        crate::heap::lemma_header_update(hd, 0, g | 2);
        let z = h.write(o, hd.regc(g | 2).0);
        crate::graph::lemma_reads_after_write(h, o, hd.regc(g | 2).0);
        assert(h.remembered(o).read(a) == z.read(a)) by {
            reveal(HeapView::read);
        }
    }
}

proof fn lemma_barrier_classes(
    h: HeapView,
    young: Seq<usize>,
    old: Seq<usize>,
    o: int,
    x: Value,
    a: int,
)
    requires
        laid_out(h, young, old),
        listed(young, o) || listed(old, o),
        listed(young, a) || listed(old, a),
    ensures
        h.barrier(o, x).hdr(a).class_field() == h.hdr(a).class_field(),
{
    lemma_noted_classes(h, young, old, o, a);
}

/// A stack put in the remembered set changes no field.
#[verifier::rlimit(40)]
pub(crate) proof fn lemma_stack_noted(
    v: VmView,
    young: Seq<usize>,
    old: Seq<usize>,
    stack: Value,
)
    requires
        laid_out(v.heap, young, old),
        listed(young, stack.addr()) || listed(old, stack.addr()),
    ensures
        same_but(v, v.stack_remembered(stack), young, old, Set::empty()),
        v.stack_remembered(stack) == v.on_heap(v.stack_remembered(stack).heap),
{
    let w = v.stack_remembered(stack);
    let h = v.heap;
    let r = w.heap;
    let o = stack.addr();
    lemma_apart_all(h, young, old, o, o);
    if r != h {
        let hd = h.hdr(o);
        let g = hd.gc_field();
        crate::heap::lemma_header_update(hd, 0, 0);
        crate::survival::lemma_remembered_bits(g);
        crate::heap::lemma_header_update(hd, 0, g | 2);
        let z = h.write(o, hd.regc(g | 2).0);
        crate::graph::lemma_reads_after_write(h, o, hd.regc(g | 2).0);
        assert(forall|y: int| #[trigger] r.read(y) == z.read(y)) by {
            reveal(HeapView::read);
        }
        assert forall|y: int| h.plausible(y) && y != o implies #[trigger] r.read(y) == h.read(y) by {
            assert(z.read(y) == h.read(y));
        }
        lemma_header_aside(h, r, young, old, o);
        assert forall|a: int| listed(young, a) || listed(old, a) implies (#[trigger] r.hdr(
            a,
        )).class_field() == h.hdr(a).class_field() by {
            lemma_noted_classes(h, young, old, o, a);
        }
        assert forall|a: Value, j: int|
            #![trigger roomy(h, young, old, a.addr(), j)]
            #![trigger roomy(r, young, old, a.addr(), j)]
            roomy(h, young, old, a.addr(), j) == roomy(r, young, old, a.addr(), j) by {
            if listed(young, a.addr()) || listed(old, a.addr()) {
                assert(r.nslots(a.addr()) == h.nslots(a.addr()));
            }
        }
        assert forall|a: Value, j: int|
            roomy(h, young, old, a.addr(), j) implies #[trigger] w.field(a, j) == v.field(a, j) by {
            assert(roomy(r, young, old, a.addr(), j));
            lemma_field(v, young, old, a, j);
            lemma_field(w, young, old, a, j);
            assert(r.slot(a.addr(), j) == h.slot(a.addr(), j));
        }
    } else {
        lemma_same_but_self(v, w, young, old);
    }
}

} // verus!
