//! What the machine does to its objects between collections keeps it sound:
//! stores behind the write barrier, stores into the running stack,
//! allocations, and the instructions that move data.

use crate::graph::{listed, Objects};
use crate::heap::HeapView;
use crate::installs::present;
use crate::interp::Fields;
use crate::machine::Machine;
use crate::remembered::flagged;
use crate::soundness::{
    fills_known, law_bytes_keep_heap_sound, law_headers_keep_heap_sound,
    law_old_allocation_keeps_heap_sound, law_store_keeps_heap_sound,
    law_young_allocation_keeps_heap_sound, lemma_lies, with_heap,
};
use crate::treaty::{
    FMT_FIXED, FMT_PTRS, FRAME_RECEIVER, OP_GETBOX, OP_GETIVAR, OP_SETBOX, OP_SETIVAR,
    PROCESS_STACK, SPECIAL_FALSE, SPECIAL_NIL, SPECIAL_TRUE,
};
use crate::value::Value;
use crate::vm::VmView;
use crate::walks::Wanted;
use vstd::prelude::*;

verus! {

/// The machine is sound and can run, and its remembered objects are flagged.
#[verifier::opaque]
pub open spec fn tended(v: VmView, young: Seq<usize>, old: Seq<usize>, live: Set<int>) -> bool {
    v.sound(young, old, live) && flagged(v.heap, old) && v.runs()
}

/// The machine runs the same process on the same stack, and its objects have
/// the formats and sizes they had.
pub open spec fn steady(v: VmView, w: VmView, young: Seq<usize>, old: Seq<usize>) -> bool {
    &&& w.running_stack() == v.running_stack()
    &&& w.active == v.active
    &&& w.specials == v.specials
    &&& w.epoch == v.epoch
    &&& w.heap.layout() == v.heap.layout()
    &&& forall|o: int| #[trigger]
        present(young, old, o) ==> w.heap.hdr(o).format_field() == v.heap.hdr(o).format_field()
            && w.heap.nslots(o) == v.heap.nslots(o)
}

/// The slot of the active process that holds its stack.
pub open spec fn is_stack_slot(v: VmView, a: int, i: int) -> bool {
    v.active.tagged_ptr() && a == v.active.addr() && i == PROCESS_STACK
}

/// The active process, when there is one, is an object of the machine.
pub(crate) proof fn lemma_active_listed(v: VmView, young: Seq<usize>, old: Seq<usize>, live: Set<int>)
    requires
        v.sound(young, old, live),
        v.runs(),
        v.active.tagged_ptr(),
        v.active != v.nil(),
    ensures
        v.objects(young, old, live).lists(v.active.addr()),
        PROCESS_STACK < v.heap.nslots(v.active.addr()),
{
    reveal(VmView::sound);
    let b = v.objects(young, old, live);
    let last = v.roots().len() - 1;
    assert(v.roots()[last] == v.active);
    assert(b.known(v.roots()[last]));
}

/// A machine whose heap changed in one slot of one object, with the barrier
/// kept, is sound as before.
#[verifier::rlimit(60)]
#[verifier::spinoff_prover]
proof fn lemma_tended_on(
    v: VmView,
    young: Seq<usize>,
    old: Seq<usize>,
    live: Set<int>,
    h: HeapView,
    a: int,
    i: int,
)
    requires
        tended(v, young, old, live),
        v.objects(young, old, live).lists(a),
        !is_stack_slot(v, a, i),
        with_heap(v.objects(young, old, live), h).sound(),
        h.layout() == v.heap.layout(),
        flagged(h, old),
        forall|k: int| 0 <= k < h.ssb.len() ==> listed(old, (#[trigger] h.ssb[k]) as int),
        forall|o: int| #[trigger] listed(v.heap.ssb, o) ==> listed(h.ssb, o),
        forall|o: int| #[trigger]
            v.objects(young, old, live).lists(o) ==> h.hdr(o).format_field() == v.heap.hdr(
                o,
            ).format_field() && h.nslots(o) == v.heap.nslots(o),
        forall|o: int, j: int|
            v.objects(young, old, live).lists(o) && !v.heap.hdr(o).byte_format() && 0 <= j
                < v.heap.nslots(o) && (o != a || j != i) ==> #[trigger] h.slot(o, j)
                == v.heap.slot(o, j),
        0 <= i && listed(old, a) && !v.heap.hdr(a).byte_format() && h.slot(a, i).tagged_ptr()
            && h.young(h.slot(a, i).addr()) ==> listed(h.ssb, a) || v.running_stack() == Some(a),
    ensures
        tended(v.on_heap(h), young, old, live),
        steady(v, v.on_heap(h), young, old),
{
    reveal(tended);
    let b = v.objects(young, old, live);
    let w = v.on_heap(h);
    assert(w.roots() =~= v.roots());
    assert(w.objects(young, old, live) == with_heap(b, h));
    assert forall|o: int| #[trigger] present(young, old, o) implies h.hdr(o).format_field()
        == v.heap.hdr(o).format_field() && h.nslots(o) == v.heap.nslots(o) by {
        assert(b.lists(o));
    }
    assert(b.sound()) by {
        reveal(VmView::sound);
    }
    assert(w.running_stack() == v.running_stack() && w.runs()) by {
        if v.active.tagged_ptr() && v.active != v.nil() {
            lemma_active_listed(v, young, old, live);
            lemma_lies(b, v.active.addr());
            assert(!v.heap.hdr(v.active.addr()).byte_format()) by {
                reveal(VmView::sound);
            }
            assert(h.slot(v.active.addr(), PROCESS_STACK as int) == v.heap.slot(
                v.active.addr(),
                PROCESS_STACK as int,
            ));
            lemma_lies(with_heap(b, h), v.active.addr());
        }
    }
    assert(w.sound(young, old, live)) by {
        reveal(VmView::sound);
        assert forall|k: int| 0 <= k < w.roots().len() implies with_heap(b, h).known(
            #[trigger] w.roots()[k],
        ) by {
            assert(b.known(v.roots()[k]));
        }
        if w.active.tagged_ptr() && h.plausible(w.active.addr()) {
            let last = v.roots().len() - 1;
            assert(v.roots()[last] == v.active);
            assert(b.known(v.roots()[last]));
            assert(b.lists(v.active.addr()));
        }
        assert forall|o: int, j: int|
            listed(old, o) && !h.hdr(o).byte_format() && 0 <= j < h.nslots(o) && (#[trigger] h.slot(
                o,
                j,
            )).tagged_ptr() && h.young(h.slot(o, j).addr()) implies listed(h.ssb, o)
            || w.running_stack() == Some(o) by {
            assert(b.lists(o));
            if o != a || j != i {
                assert(h.slot(o, j) == v.heap.slot(o, j));
                assert(listed(v.heap.ssb, o) || v.running_stack() == Some(o));
            }
        }
    }
}

/// A machine whose heap changed in no slot is sound as before.
pub(crate) proof fn lemma_tended_beside(
    v: VmView,
    young: Seq<usize>,
    old: Seq<usize>,
    live: Set<int>,
    h: HeapView,
)
    requires
        tended(v, young, old, live),
        with_heap(v.objects(young, old, live), h).sound(),
        h.layout() == v.heap.layout(),
        flagged(h, old),
        forall|k: int| 0 <= k < h.ssb.len() ==> listed(old, (#[trigger] h.ssb[k]) as int),
        forall|o: int| #[trigger] listed(v.heap.ssb, o) ==> listed(h.ssb, o),
        forall|o: int| #[trigger]
            v.objects(young, old, live).lists(o) ==> h.hdr(o).format_field() == v.heap.hdr(
                o,
            ).format_field() && h.nslots(o) == v.heap.nslots(o),
        forall|o: int, j: int|
            v.objects(young, old, live).lists(o) && 0 <= j < v.heap.nslots(o) ==> #[trigger] h.slot(
                o,
                j,
            ) == v.heap.slot(o, j),
        exists|o: int| v.objects(young, old, live).lists(o),
    ensures
        tended(v.on_heap(h), young, old, live),
        steady(v, v.on_heap(h), young, old),
{
    let a = choose|o: int| v.objects(young, old, live).lists(o);
    lemma_tended_on(v, young, old, live, h, a, -1);
}

/// A known value stored in a slot without the write barrier keeps the machine
/// sound where it is not young, or the object is young, remembered or the
/// running stack.
#[verifier::rlimit(60)]
#[verifier::spinoff_prover]
pub proof fn law_plain_store_keeps_sound(
    v: VmView,
    young: Seq<usize>,
    old: Seq<usize>,
    live: Set<int>,
    a: int,
    i: int,
    x: Value,
)
    requires
        tended(v, young, old, live),
        v.objects(young, old, live).lists(a),
        0 <= i < v.heap.nslots(a),
        v.objects(young, old, live).known(x),
        !is_stack_slot(v, a, i),
        x.tagged_ptr() && v.heap.young(x.addr()) && listed(old, a) ==> listed(v.heap.ssb, a)
            || v.running_stack() == Some(a),
    ensures
        tended(v.on_heap(v.heap.set_slot(a, i, x)), young, old, live),
        steady(v, v.on_heap(v.heap.set_slot(a, i, x)), young, old),
{
    let b = v.objects(young, old, live);
    let h = v.heap.set_slot(a, i, x);
    assert(b.sound() && flagged(v.heap, old) && forall|k: int|
        0 <= k < v.heap.ssb.len() ==> listed(old, (#[trigger] v.heap.ssb[k]) as int)) by {
        reveal(tended);
        reveal(VmView::sound);
    }
    lemma_lies(b, a);
    if v.heap.hdr(a).byte_format() {
        law_bytes_keep_heap_sound(b, a, i, x.0);
        crate::soundness::lemma_others(b, a, a + 8 + 8 * i, x.0);
    } else {
        law_store_keeps_heap_sound(b, a, i, x);
    }
    assert forall|o: int| #[trigger] listed(old, o) implies (listed(h.ssb, o)
        <==> h.is_remembered(o)) by {
        assert(b.lists(o));
    }
    assert forall|o: int, j: int|
        b.lists(o) && !v.heap.hdr(o).byte_format() && 0 <= j < v.heap.nslots(o) && (o != a || j
            != i) implies #[trigger] h.slot(o, j) == v.heap.slot(o, j) by {
        if v.heap.hdr(a).byte_format() {
            assert(o != a);
        }
    }
    lemma_tended_on(v, young, old, live, h, a, i);
}

/// A word of a byte object changed keeps the machine sound.
#[verifier::rlimit(60)]
#[verifier::spinoff_prover]
pub proof fn law_byte_store_keeps_sound(
    v: VmView,
    young: Seq<usize>,
    old: Seq<usize>,
    live: Set<int>,
    a: int,
    i: int,
    w: u64,
)
    requires
        tended(v, young, old, live),
        v.objects(young, old, live).lists(a),
        v.heap.hdr(a).byte_format(),
        0 <= i < v.heap.nslots(a),
        !is_stack_slot(v, a, i),
    ensures
        tended(v.on_heap(v.heap.write(a + 8 + 8 * i, w)), young, old, live),
        steady(v, v.on_heap(v.heap.write(a + 8 + 8 * i, w)), young, old),
{
    let b = v.objects(young, old, live);
    let h = v.heap.write(a + 8 + 8 * i, w);
    assert(b.sound() && flagged(v.heap, old) && forall|k: int|
        0 <= k < v.heap.ssb.len() ==> listed(old, (#[trigger] v.heap.ssb[k]) as int)) by {
        reveal(tended);
        reveal(VmView::sound);
    }
    lemma_lies(b, a);
    law_bytes_keep_heap_sound(b, a, i, w);
    crate::soundness::lemma_others(b, a, a + 8 + 8 * i, w);
    assert forall|o: int| #[trigger] listed(old, o) implies (listed(h.ssb, o)
        <==> h.is_remembered(o)) by {
        assert(b.lists(o));
    }
    assert forall|o: int, j: int|
        b.lists(o) && !v.heap.hdr(o).byte_format() && 0 <= j < v.heap.nslots(o) && (o != a || j
            != i) implies #[trigger] h.slot(o, j) == v.heap.slot(o, j) by {
        assert(o != a);
    }
    lemma_tended_on(v, young, old, live, h, a, i);
}

/// What a store behind the write barrier does to a sound heap.
pub open spec fn stored_in(b: Objects, h: HeapView, a: int, i: int, x: Value) -> bool {
    &&& with_heap(b, h).sound()
    &&& h.layout() == b.heap.layout()
    &&& flagged(h, b.old)
    &&& forall|k: int| 0 <= k < h.ssb.len() ==> listed(b.old, (#[trigger] h.ssb[k]) as int)
    &&& forall|o: int| #[trigger] listed(b.heap.ssb, o) ==> listed(h.ssb, o)
    &&& forall|o: int| #[trigger]
        b.lists(o) ==> h.hdr(o).format_field() == b.heap.hdr(o).format_field() && h.nslots(o)
            == b.heap.nslots(o)
    &&& forall|o: int, j: int|
        b.lists(o) && !b.heap.hdr(o).byte_format() && 0 <= j < b.heap.nslots(o) && (o != a || j
            != i) ==> #[trigger] h.slot(o, j) == b.heap.slot(o, j)
    &&& h.slot(a, i) == x
    &&& listed(b.old, a) && x.tagged_ptr() && h.young(x.addr()) ==> listed(h.ssb, a)
}

/// An old object put in the remembered set keeps the heap sound.
#[verifier::rlimit(60)]
#[verifier::spinoff_prover]
pub(crate) proof fn lemma_noted(b: Objects, a: int)
    requires
        b.sound(),
        flagged(b.heap, b.old),
        forall|k: int|
            0 <= k < b.heap.ssb.len() ==> listed(b.old, (#[trigger] b.heap.ssb[k]) as int),
        listed(b.old, a),
    ensures
        ({
            let h = b.heap.remembered(a);
            &&& with_heap(b, h).sound()
            &&& h.layout() == b.heap.layout()
            &&& flagged(h, b.old)
            &&& forall|k: int| 0 <= k < h.ssb.len() ==> listed(b.old, (#[trigger] h.ssb[k]) as int)
            &&& forall|o: int| #[trigger] listed(b.heap.ssb, o) ==> listed(h.ssb, o)
            &&& listed(h.ssb, a)
            &&& forall|o: int| #[trigger]
                b.lists(o) ==> h.hdr(o).format_field() == b.heap.hdr(o).format_field()
                    && h.nslots(o) == b.heap.nslots(o)
            &&& forall|o: int, j: int|
                b.lists(o) && 0 <= j < b.heap.nslots(o) ==> #[trigger] h.slot(o, j) == b.heap.slot(
                    o,
                    j,
                )
        }),
{
    let h1 = b.heap;
    assert(b.lists(a));
    lemma_lies(b, a);
    if !h1.is_remembered(a) {
        let hd = h1.hdr(a);
        let g = hd.gc_field();
        crate::heap::lemma_header_update(hd, 0, 0);
        crate::survival::lemma_remembered_bits(g);
        crate::heap::lemma_header_update(hd, 0, g | 2);
        let nd = hd.regc(g | 2);
        crate::graph::lemma_low_bit(nd.0);
        crate::graph::lemma_low_bit(hd.0);
        assert(h1.read(a) & 1 == 0) by {
            reveal(Objects::sound);
        }
        law_headers_keep_heap_sound(b, a, nd);
        let h2 = h1.write(a, nd.0);
        let h3 = HeapView { ssb: h2.ssb.push(a as usize), ..h2 };
        assert(h1.remembered(a) == h3);
        assert(forall|y: int| #[trigger] h3.read(y) == h2.read(y)) by {
            reveal(HeapView::read);
        }
        lemma_ssb_apart(with_heap(b, h2), h3.ssb);
        crate::graph::lemma_listed_push(h2.ssb, a as usize);
        assert(with_heap(b, h3) == with_heap(with_heap(b, h2), h3));
        assert forall|o: int| #[trigger] listed(b.old, o) implies (listed(h3.ssb, o)
            <==> h3.is_remembered(o)) by {
            assert(b.lists(o));
            assert(listed(h1.ssb, o) <==> h1.is_remembered(o));
            if o != a {
                assert(h2.read(o) == h1.read(o));
            }
        }
        assert forall|k: int| 0 <= k < h3.ssb.len() implies listed(
            b.old,
            (#[trigger] h3.ssb[k]) as int,
        ) by {
            if k < h1.ssb.len() {
                assert(h3.ssb[k] == h1.ssb[k]);
            }
        }
        assert forall|o: int| #[trigger] b.lists(o) implies h3.hdr(o).format_field() == h1.hdr(
            o,
        ).format_field() && h3.nslots(o) == h1.nslots(o) by {
            assert(h2.nslots(o) == h1.nslots(o));
        }
        assert forall|o: int, j: int|
            b.lists(o) && 0 <= j < h1.nslots(o) implies #[trigger] h3.slot(o, j) == h1.slot(o, j) by {
            assert(h2.slot(o, j) == h1.slot(o, j));
        }
    } else {
        assert(listed(h1.ssb, a) <==> h1.is_remembered(a));
    }
}

/// A known value stored behind the write barrier.
#[verifier::rlimit(60)]
#[verifier::spinoff_prover]
pub(crate) proof fn lemma_stored_in(b: Objects, a: int, i: int, x: Value)
    requires
        b.sound(),
        flagged(b.heap, b.old),
        forall|k: int|
            0 <= k < b.heap.ssb.len() ==> listed(b.old, (#[trigger] b.heap.ssb[k]) as int),
        b.lists(a),
        0 <= i < b.heap.nslots(a),
        b.known(x),
    ensures
        stored_in(b, b.heap.store(a, i, x), a, i, x),
{
    let h = b.heap;
    lemma_lies(b, a);
    let h1 = h.set_slot(a, i, x);
    assert(h.wf()) by {
        reveal(Objects::sound);
    }
    crate::graph::lemma_reads_after_write(h, a + 8 + 8 * i, x.0);
    if h.hdr(a).byte_format() {
        law_bytes_keep_heap_sound(b, a, i, x.0);
        crate::soundness::lemma_others(b, a, a + 8 + 8 * i, x.0);
    } else {
        law_store_keeps_heap_sound(b, a, i, x);
    }
    let b1 = with_heap(b, h1);
    assert(h1.hdr(a) == h.hdr(a));
    assert forall|o: int| #[trigger] listed(b.old, o) implies (listed(h1.ssb, o)
        <==> h1.is_remembered(o)) by {
        assert(b.lists(o));
        assert(listed(h.ssb, o) <==> h.is_remembered(o));
    }
    assert forall|o: int, j: int|
        b.lists(o) && !h.hdr(o).byte_format() && 0 <= j < h.nslots(o) && (o != a || j
            != i) implies #[trigger] h1.slot(o, j) == h.slot(o, j) by {
        if h.hdr(a).byte_format() {
            assert(o != a);
        }
    }
    if x.tagged_ptr() && h1.young(x.addr()) && h1.tenured(a) && !h1.is_remembered(a) {
        assert(listed(b.old, a)) by {
            if listed(b.young, a) {
                reveal(Objects::sound);
            }
        }
        lemma_noted(b1, a);
        let h3 = h1.remembered(a);
        assert(h.store(a, i, x) == h3);
        assert(with_heap(b, h3) == with_heap(b1, h3));
        assert forall|o: int| #[trigger] b.lists(o) implies h3.hdr(o).format_field() == h.hdr(
            o,
        ).format_field() && h3.nslots(o) == h.nslots(o) by {
            assert(b1.lists(o));
        }
        assert forall|o: int, j: int|
            b.lists(o) && !h.hdr(o).byte_format() && 0 <= j < h.nslots(o) && (o != a || j
                != i) implies #[trigger] h3.slot(o, j) == h.slot(o, j) by {
            assert(b1.lists(o));
            assert(h1.nslots(o) == h.nslots(o));
            assert(h3.slot(o, j) == h1.slot(o, j));
            assert(h1.slot(o, j) == h.slot(o, j));
        }
        assert(h1.nslots(a) == h.nslots(a));
        assert(b1.lists(a));
        assert(h3.slot(a, i) == h1.slot(a, i));
    } else {
        assert(h.store(a, i, x) == h1);
        if x.tagged_ptr() && h.young(x.addr()) && listed(b.old, a) {
            assert(h1.is_remembered(a));
            assert(listed(h1.ssb, a) <==> h1.is_remembered(a));
        }
    }
}

/// A known value stored behind the write barrier keeps the machine sound.
#[verifier::rlimit(60)]
#[verifier::spinoff_prover]
pub proof fn law_store_keeps_sound(
    v: VmView,
    young: Seq<usize>,
    old: Seq<usize>,
    live: Set<int>,
    a: int,
    i: int,
    x: Value,
)
    requires
        tended(v, young, old, live),
        v.objects(young, old, live).lists(a),
        0 <= i < v.heap.nslots(a),
        v.objects(young, old, live).known(x),
        !is_stack_slot(v, a, i),
    ensures
        tended(v.on_heap(v.heap.store(a, i, x)), young, old, live),
        steady(v, v.on_heap(v.heap.store(a, i, x)), young, old),
{
    let b = v.objects(young, old, live);
    assert(b.sound() && flagged(v.heap, old) && forall|k: int|
        0 <= k < v.heap.ssb.len() ==> listed(old, (#[trigger] v.heap.ssb[k]) as int)) by {
        reveal(tended);
        reveal(VmView::sound);
    }
    lemma_stored_in(b, a, i, x);
    lemma_tended_on(v, young, old, live, v.heap.store(a, i, x), a, i);
}

/// The remembered set says nothing of the objects.
#[verifier::rlimit(60)]
proof fn lemma_ssb_apart(b: Objects, ssb: Seq<usize>)
    requires
        b.sound(),
    ensures
        with_heap(b, HeapView { ssb, ..b.heap }).sound(),
{
    let h = b.heap;
    let h1 = HeapView { ssb, ..h };
    let b1 = with_heap(b, h1);
    assert(forall|x: int| #[trigger] h1.read(x) == h.read(x)) by {
        reveal(HeapView::read);
    }
    assert(tiles_both(b)) by {
        reveal(Objects::sound);
    }
    assert forall|k: int| 0 <= k < b.young.len() implies crate::graph::same_size(
        h,
        h1,
        (#[trigger] b.young[k]) as int,
    ) by {}
    assert forall|k: int| 0 <= k < b.old.len() implies crate::graph::same_size(
        h,
        h1,
        (#[trigger] b.old[k]) as int,
    ) by {}
    crate::graph::lemma_tiles_kept(h, h1, b.young, h.from.base, h.from.top());
    crate::graph::lemma_tiles_kept(h, h1, b.old, h.old.base, h.old.top());
    assert forall|a: int| #[trigger] b1.lists(a) implies h1.read(a) & 1 == 0
        && crate::graph::headed(h1, a) by {
        assert(b.lists(a));
        reveal(Objects::sound);
    }
    assert forall|a: int, i: int|
        b1.has(a) && !h1.hdr(a).byte_format() && 0 <= i < h1.nslots(a) implies b1.known(
        #[trigger] h1.slot(a, i),
    ) by {
        assert(b.has(a));
        assert(h1.slot(a, i) == h.slot(a, i));
        assert(b.known(h.slot(a, i))) by {
            reveal(Objects::sound);
        }
    }
    reveal(Objects::sound);
}

spec fn tiles_both(b: Objects) -> bool {
    &&& crate::graph::tiles(b.heap, b.young, b.heap.from.base, b.heap.from.top())
    &&& crate::graph::tiles(b.heap, b.old, b.heap.old.base, b.heap.old.top())
}

// ---------------------------------------------------------------------------
// Allocation
// ---------------------------------------------------------------------------
/// A machine whose heap has one object more is sound as before.
#[verifier::rlimit(60)]
#[verifier::spinoff_prover]
pub(crate) proof fn lemma_tended_grown(
    v: VmView,
    b: Objects,
    b1: Objects,
    a: int,
    x: Wanted,
)
    requires
        tended(v, b.young, b.old, b.live),
        b == v.objects(b.young, b.old, b.live),
        crate::soundness::object_added(b, b1.heap, a, x),
        b1.sound(),
        forall|o: int| #[trigger] b1.has(o) <==> b.has(o) || o == a,
        forall|o: int| #[trigger] listed(b1.old, o) ==> listed(b.old, o) || o == a,
        forall|o: int| #[trigger] listed(b.old, o) ==> listed(b1.old, o),
        listed(b1.old, a) && x.format < 8 ==> forall|i: int|
            0 <= i < x.slots ==> !((#[trigger] b1.heap.slot(a, i)).tagged_ptr() && b1.heap.young(
                b1.heap.slot(a, i).addr(),
            )),
    ensures
        tended(v.on_heap(b1.heap), b1.young, b1.old, b1.live),
        steady(v, v.on_heap(b1.heap), b.young, b.old),
{
    reveal(tended);
    let h = v.heap;
    let h1 = b1.heap;
    let w = v.on_heap(h1);
    assert(w.roots() =~= v.roots());
    assert(w.objects(b1.young, b1.old, b1.live) == b1);
    assert(b.sound() && forall|k: int|
        0 <= k < h.ssb.len() ==> listed(b.old, (#[trigger] h.ssb[k]) as int)) by {
        reveal(VmView::sound);
    }
    assert forall|o: int| #[trigger] present(b.young, b.old, o) implies h1.hdr(o).format_field()
        == h.hdr(o).format_field() && h1.nslots(o) == h.nslots(o) by {
        assert(b.lists(o));
    }
    crate::heap::lemma_immutable_bits(0);
    assert forall|o: int| #[trigger] listed(b1.old, o) implies (listed(h1.ssb, o)
        <==> h1.is_remembered(o)) by {
        if listed(b.old, o) {
            assert(b.lists(o));
            assert(listed(h.ssb, o) <==> h.is_remembered(o));
        } else {
            if listed(h.ssb, o) {
                let k = choose|k: int| 0 <= k < h.ssb.len() && #[trigger] h.ssb[k] == o;
                assert(listed(b.old, h.ssb[k] as int));
            }
        }
    }
    assert(w.running_stack() == v.running_stack() && w.runs()) by {
        if v.active.tagged_ptr() && v.active != v.nil() {
            lemma_active_listed(v, b.young, b.old, b.live);
            let p = v.active.addr();
            lemma_lies(b, p);
            assert(h1.slot(p, PROCESS_STACK as int) == h.slot(p, PROCESS_STACK as int));
            assert(b.has(p) || b.lists(p));
            assert(h1.read(p) == h.read(p) && h1.nslots(p) == h.nslots(p));
            assert(h1.shaped(p, PROCESS_STACK + 1)) by {
                let last = v.roots().len() - 1;
                assert(v.roots()[last] == v.active);
                assert(b.known(v.roots()[last])) by {
                    reveal(VmView::sound);
                }
                assert(b1.has(p));
                assert(b1.lists(p));
                lemma_lies(b1, p);
            }
        }
    }
    assert(w.sound(b1.young, b1.old, b1.live)) by {
        reveal(VmView::sound);
        assert forall|k: int| 0 <= k < w.roots().len() implies b1.known(#[trigger] w.roots()[k]) by {
            assert(b.known(v.roots()[k]));
            let r = v.roots()[k];
            if r.tagged_ptr() && h1.plausible(r.addr()) {
                assert(b.has(r.addr()));
                assert(b1.has(r.addr()));
            }
        }
        if w.active.tagged_ptr() && h1.plausible(w.active.addr()) {
            let last = v.roots().len() - 1;
            assert(v.roots()[last] == v.active);
            assert(b.known(v.roots()[last]));
            assert(b.lists(v.active.addr()));
        }
        assert forall|o: int, j: int|
            listed(b1.old, o) && !h1.hdr(o).byte_format() && 0 <= j < h1.nslots(o) && (
            #[trigger] h1.slot(o, j)).tagged_ptr() && h1.young(h1.slot(o, j).addr()) implies listed(
            h1.ssb,
            o,
        ) || w.running_stack() == Some(o) by {
            if listed(b.old, o) {
                assert(b.lists(o));
                assert(h1.slot(o, j) == h.slot(o, j));
                assert(listed(h.ssb, o) || v.running_stack() == Some(o));
            }
        }
    }
}

/// The objects of a machine after one more was allocated.
#[verifier::ext_equal]
pub struct Lists {
    pub young: Seq<usize>,
    pub old: Seq<usize>,
    pub live: Set<int>,
}

impl Lists {
    pub open spec fn of(self, v: VmView) -> Objects {
        v.objects(self.young, self.old, self.live)
    }
}

/// The machine has one object more, a new one, and the others as they were.
pub open spec fn one_more(
    v: VmView,
    young: Seq<usize>,
    old: Seq<usize>,
    live: Set<int>,
    w: VmView,
    x: Value,
    l: Lists,
) -> bool {
    &&& tended(w, l.young, l.old, l.live)
    &&& steady(v, w, young, old)
    &&& x.tagged_ptr()
    &&& l.of(w).has(x.addr())
    &&& !v.objects(young, old, live).lists(x.addr())
    &&& old.is_prefix_of(l.old)
    &&& forall|o: int| #[trigger] v.objects(young, old, live).has(o) ==> l.of(w).has(o)
    &&& forall|o: int| #[trigger] listed(l.old, o) ==> listed(old, o) || o == x.addr()
    &&& forall|o: int| #[trigger] listed(old, o) ==> listed(l.old, o)
    &&& w.heap.ssb == v.heap.ssb
    &&& forall|o: int, i: int|
        v.objects(young, old, live).lists(o) && 0 <= i < v.heap.nslots(o)
            ==> #[trigger] w.heap.slot(o, i) == v.heap.slot(o, i)
}

/// An allocation keeps the machine sound, and gives it one object more.
#[verifier::rlimit(60)]
#[verifier::spinoff_prover]
pub(crate) proof fn lemma_attempt(
    v: VmView,
    young: Seq<usize>,
    old: Seq<usize>,
    live: Set<int>,
    class: u32,
    format: u64,
    n: int,
    nil: Value,
) -> (l: Lists)
    requires
        tended(v, young, old, live),
        v.objects(young, old, live).known(nil),
        !v.heap.young(nil.addr()),
        0 < class <= crate::heap::MAX_CLASS_INDEX,
        0 <= n < 0x400_0000_0000,
    ensures
        v.heap.attempt(class, format, n, nil) matches Some((h, x)) ==> one_more(
            v,
            young,
            old,
            live,
            v.on_heap(h),
            x,
            l,
        ) && (format == FMT_FIXED || format == FMT_PTRS ==> h.nslots(x.addr()) == n && h.hdr(
            x.addr(),
        ).format_field() == format && (!h.large(n) ==> !listed(l.old, x.addr())) && forall|i: int|
            0 <= i < n ==> #[trigger] h.slot(x.addr(), i) == nil),
{
    let b = v.objects(young, old, live);
    assert(b.sound()) by {
        reveal(tended);
        reveal(VmView::sound);
    }
    reveal(HeapView::attempt);
    let mut l = Lists { young, old, live };
    if let Some((h, x)) = v.heap.attempt(class, format, n, nil) {
        let plain = format == FMT_FIXED || format == FMT_PTRS;
        let k = if plain {
            n
        } else {
            crate::heap::slots_for(n)
        };
        let f = if plain {
            format
        } else {
            crate::heap::byte_format_for(n)
        };
        let fill = if plain {
            Some(nil.0)
        } else {
            None
        };
        let want = Wanted { class_index: class, format: f, slots: k, fill, large: true };
        assert(v.heap.alloc_any(class, f, k, fill) is Some);
        assert(nil == Value(nil.0));
        assert(fills_known(b, want));
        let a = x.addr();
        if v.heap.large(k) {
            law_old_allocation_keeps_heap_sound(b, want);
            let b1 = Objects { heap: h, old: b.old.push(a as usize), ..b };
            crate::graph::lemma_listed_push(b.old, a as usize);
            lemma_tended_grown(v, b, b1, a, want);
            l = Lists { young: b1.young, old: b1.old, live: b1.live };
            assert(l.of(v.on_heap(h)) == b1);
            assert(b1.lists(a));
            lemma_lies(b1, a);
            assert(old.is_prefix_of(l.old));
            assert(h.config == v.heap.config);
        } else {
            law_young_allocation_keeps_heap_sound(b, want);
            let b1 = Objects {
                heap: h,
                young: b.young.push(a as usize),
                live: b.live.insert(a),
                ..b
            };
            crate::graph::lemma_listed_push(b.young, a as usize);
            lemma_tended_grown_young(b, b1, a);
            lemma_tended_grown(v, b, b1, a, want);
            l = Lists { young: b1.young, old: b1.old, live: b1.live };
            assert(l.of(v.on_heap(h)) == b1);
            assert(b1.lists(a));
            lemma_lies(b1, a);
        }
        crate::value::lemma_untag_bits(x);
    }
    l
}

/// An allocation of pointer slots in old space keeps the machine sound, and
/// gives it one object more.
#[verifier::rlimit(60)]
#[verifier::spinoff_prover]
pub(crate) proof fn lemma_attempt_old(
    v: VmView,
    young: Seq<usize>,
    old: Seq<usize>,
    live: Set<int>,
    class: u32,
    n: int,
    nil: Value,
) -> (l: Lists)
    requires
        tended(v, young, old, live),
        v.objects(young, old, live).known(nil),
        !v.heap.young(nil.addr()),
        0 < class <= crate::heap::MAX_CLASS_INDEX,
        0 <= n < 0x400_0000_0000,
    ensures
        v.heap.alloc_old(class, FMT_PTRS, n, Some(nil.0), false) matches Some((h, a)) ==> one_more(
            v,
            young,
            old,
            live,
            v.on_heap(h),
            Value(a as u64),
            l,
        ) && Value(a as u64).addr() == a && h.nslots(a) == n && h.hdr(a).format_field() == FMT_PTRS
            && forall|i: int| 0 <= i < n ==> #[trigger] h.slot(a, i) == nil,
{
    let b = v.objects(young, old, live);
    assert(b.sound()) by {
        reveal(tended);
        reveal(VmView::sound);
    }
    let mut l = Lists { young, old, live };
    if let Some((h, a)) = v.heap.alloc_old(class, FMT_PTRS, n, Some(nil.0), false) {
        let want = Wanted {
            class_index: class,
            format: FMT_PTRS,
            slots: n,
            fill: Some(nil.0),
            large: false,
        };
        assert(nil == Value(nil.0));
        assert(fills_known(b, want));
        law_old_allocation_keeps_heap_sound(b, want);
        let b1 = Objects { heap: h, old: b.old.push(a as usize), ..b };
        crate::graph::lemma_listed_push(b.old, a as usize);
        lemma_tended_grown(v, b, b1, a, want);
        l = Lists { young: b1.young, old: b1.old, live: b1.live };
        assert(l.of(v.on_heap(h)) == b1);
        assert(b1.lists(a));
        lemma_lies(b1, a);
        crate::value::lemma_untag_bits(Value(a as u64));
        assert(old.is_prefix_of(l.old));
    }
    l
}

/// An allocation keeps the machine sound, and the new object is one of it.
pub proof fn law_allocation_keeps_sound(
    v: VmView,
    young: Seq<usize>,
    old: Seq<usize>,
    live: Set<int>,
    class: u32,
    format: u64,
    n: int,
    nil: Value,
)
    requires
        tended(v, young, old, live),
        v.objects(young, old, live).known(nil),
        !v.heap.young(nil.addr()),
        0 < class <= crate::heap::MAX_CLASS_INDEX,
        0 <= n < 0x400_0000_0000,
    ensures
        v.heap.attempt(class, format, n, nil) matches Some((h, x)) ==> exists|l: Lists|
            #[trigger] one_more(v, young, old, live, v.on_heap(h), x, l),
{
    let l = lemma_attempt(v, young, old, live, class, format, n, nil);
}

/// A new young object is not in old space.
pub(crate) proof fn lemma_tended_grown_young(b: Objects, b1: Objects, a: int)
    requires
        b.sound(),
        b1.heap.layout() == b.heap.layout(),
        b1.old == b.old,
        b1.heap.young(a),
    ensures
        !listed(b1.old, a),
{
    if listed(b.old, a) {
        assert(b.lists(a));
        lemma_lies(b, a);
    }
}

// ---------------------------------------------------------------------------
// Instructions
// ---------------------------------------------------------------------------
/// A value whose slots can be read: a known one that is no byte object.
pub open spec fn readable(b: Objects, v: Value) -> bool {
    &&& b.known(v)
    &&& b.heap.plausible(v.addr()) ==> !b.heap.hdr(v.addr()).byte_format()
}

/// The registers are up to date and name the running stack, which is no
/// process.
pub open spec fn stacked(m: Machine, young: Seq<usize>, old: Seq<usize>, live: Set<int>) -> bool {
    &&& readable(m.vm.objects(young, old, live), m.regs.stack)
    &&& m.vm.running_stack() == Some(m.regs.stack.addr())
    &&& m.regs.stack.addr() != m.vm.active.addr()
    &&& m.regs.epoch == m.vm.epoch
    &&& m.vm.specials.len() > SPECIAL_TRUE
    &&& m.vm.specials.len() > SPECIAL_FALSE
}

/// The registers name the running stack and a literal array.
pub open spec fn framed(m: Machine, young: Seq<usize>, old: Seq<usize>, live: Set<int>) -> bool {
    stacked(m, young, old, live) && readable(m.vm.objects(young, old, live), m.regs.lits)
}

/// Special objects are known.
pub(crate) proof fn lemma_special_known(
    v: VmView,
    young: Seq<usize>,
    old: Seq<usize>,
    live: Set<int>,
    k: int,
)
    requires
        tended(v, young, old, live),
        0 <= k < v.specials.len(),
    ensures
        v.objects(young, old, live).known(v.specials[k]),
{
    reveal(tended);
    reveal(VmView::sound);
    assert(v.roots()[k] == v.specials[k]);
}

/// What is read from an object is known.
pub(crate) proof fn lemma_field_known(
    v: VmView,
    young: Seq<usize>,
    old: Seq<usize>,
    live: Set<int>,
    o: Value,
    i: int,
)
    requires
        tended(v, young, old, live),
        v.specials.len() > SPECIAL_NIL,
        readable(v.objects(young, old, live), o),
    ensures
        v.objects(young, old, live).known(v.field(o, i)),
{
    reveal(VmView::field);
    crate::value::lemma_untag_bits(o);
    let b = v.objects(young, old, live);
    assert(b.sound()) by {
        reveal(tended);
        reveal(VmView::sound);
    }
    if 0 <= i && v.heap.shaped(o.addr(), i + 1) {
        assert(b.has(o.addr()));
        assert(b.known(v.heap.slot(o.addr(), i))) by {
            reveal(Objects::sound);
        }
    } else {
        lemma_special_known(v, young, old, live, SPECIAL_NIL as int);
    }
}

/// A known value put in a slot of the current frame keeps the machine sound.
pub proof fn law_frame_store_keeps_sound(
    m: Machine,
    young: Seq<usize>,
    old: Seq<usize>,
    live: Set<int>,
    k: int,
    x: Value,
)
    requires
        tended(m.vm, young, old, live),
        framed(m, young, old, live),
        m.vm.objects(young, old, live).known(x),
    ensures
        tended(m.put(k, x).vm, young, old, live),
        steady(m.vm, m.put(k, x).vm, young, old),
        m.put(k, x).regs == m.regs,
{
    reveal(VmView::with_field);
    let i = m.regs.frame + FRAME_RECEIVER + k;
    let a = m.regs.stack.addr();
    if 0 <= i && m.vm.heap.shaped(a, i + 1) {
        law_plain_store_keeps_sound(m.vm, young, old, live, a, i, x);
    }
}

/// A known value stored in an object behind the write barrier keeps the
/// machine sound.
pub proof fn law_field_store_keeps_sound(
    v: VmView,
    young: Seq<usize>,
    old: Seq<usize>,
    live: Set<int>,
    o: Value,
    i: int,
    x: Value,
)
    requires
        tended(v, young, old, live),
        v.objects(young, old, live).known(o),
        v.objects(young, old, live).known(x),
        !is_stack_slot(v, o.addr(), i),
    ensures
        tended(v.with_stored(o, i, x), young, old, live),
        steady(v, v.with_stored(o, i, x), young, old),
{
    reveal(VmView::with_stored);
    crate::value::lemma_untag_bits(o);
    if 0 <= i && v.heap.shaped(o.addr(), i + 1) {
        law_store_keeps_sound(v, young, old, live, o.addr(), i, x);
    }
}

/// An instruction that moves a value into a slot of the frame keeps the
/// machine sound.
#[verifier::rlimit(60)]
pub proof fn law_moves_keep_sound(
    m: Machine,
    f: Fields,
    young: Seq<usize>,
    old: Seq<usize>,
    live: Set<int>,
)
    requires
        tended(m.vm, young, old, live),
        framed(m, young, old, live),
    ensures
        m.moved(f) matches Ok(m1) ==> tended(m1.vm, young, old, live) && steady(
            m.vm,
            m1.vm,
            young,
            old,
        ) && m1.regs == m.regs,
{
    reveal(Machine::moved);
    let a = f.a as int;
    let v = m.vm;
    lemma_field_known(v, young, old, live, m.regs.stack, m.regs.frame + FRAME_RECEIVER + f.b);
    lemma_field_known(v, young, old, live, m.regs.stack, m.regs.frame + FRAME_RECEIVER + 0);
    lemma_field_known(v, young, old, live, m.regs.lits, f.d as int);
    lemma_special_known(v, young, old, live, SPECIAL_NIL as int);
    lemma_special_known(v, young, old, live, SPECIAL_TRUE as int);
    lemma_special_known(v, young, old, live, SPECIAL_FALSE as int);
    crate::value::lemma_tag_bits(f.d as i16 as i64);
    law_frame_store_keeps_sound(m, young, old, live, a, m.get(f.b as int));
    law_frame_store_keeps_sound(m, young, old, live, a, m.get(0));
    law_frame_store_keeps_sound(m, young, old, live, a, m.vm.field(m.regs.lits, f.d as int));
    law_frame_store_keeps_sound(m, young, old, live, a, v.nil());
    law_frame_store_keeps_sound(m, young, old, live, a, v.true_v());
    law_frame_store_keeps_sound(m, young, old, live, a, v.false_v());
    law_frame_store_keeps_sound(
        m,
        young,
        old,
        live,
        a,
        crate::value::tag(f.d as i16 as i64),
    );
}

/// An instruction that reads or writes an instance variable or a box keeps
/// the machine sound, where what it reads is no byte object and what it
/// writes is not the active process's stack.
#[verifier::rlimit(60)]
pub proof fn law_accesses_keep_sound(
    m: Machine,
    f: Fields,
    young: Seq<usize>,
    old: Seq<usize>,
    live: Set<int>,
)
    requires
        tended(m.vm, young, old, live),
        framed(m, young, old, live),
        f.op == OP_GETIVAR || f.op == OP_SETIVAR || f.op == OP_GETBOX || f.op == OP_SETBOX,
        f.op == OP_GETIVAR && m.get(0).tagged_ptr() ==> readable(
            m.vm.objects(young, old, live),
            m.get(0),
        ),
        f.op == OP_GETBOX && m.get(f.b as int).tagged_ptr() ==> readable(
            m.vm.objects(young, old, live),
            m.get(f.b as int),
        ),
        f.op == OP_SETIVAR ==> !is_stack_slot(m.vm, m.get(0).addr(), f.a as int),
        f.op == OP_SETBOX ==> !is_stack_slot(m.vm, m.get(f.a as int).addr(), 0),
    ensures
        m.accessed(f) matches Ok(m1) ==> tended(m1.vm, young, old, live) && steady(
            m.vm,
            m1.vm,
            young,
            old,
        ) && m1.regs == m.regs,
{
    reveal(Machine::accessed);
    let v = m.vm;
    lemma_field_known(v, young, old, live, m.regs.stack, m.regs.frame + FRAME_RECEIVER + 0);
    lemma_field_known(v, young, old, live, m.regs.stack, m.regs.frame + FRAME_RECEIVER + f.a);
    lemma_field_known(v, young, old, live, m.regs.stack, m.regs.frame + FRAME_RECEIVER + f.b);
    if f.op == OP_GETIVAR {
        if m.get(0).tagged_ptr() {
            lemma_field_known(v, young, old, live, m.get(0), f.b as int);
            law_frame_store_keeps_sound(
                m,
                young,
                old,
                live,
                f.a as int,
                v.field(m.get(0), f.b as int),
            );
        }
    } else if f.op == OP_SETIVAR {
        if m.get(0).tagged_ptr() {
            law_field_store_keeps_sound(
                v,
                young,
                old,
                live,
                m.get(0),
                f.a as int,
                m.get(f.b as int),
            );
        }
    } else if f.op == OP_GETBOX {
        if m.get(f.b as int).tagged_ptr() {
            lemma_field_known(v, young, old, live, m.get(f.b as int), 0);
            law_frame_store_keeps_sound(
                m,
                young,
                old,
                live,
                f.a as int,
                v.field(m.get(f.b as int), 0),
            );
        }
    } else if m.get(f.a as int).tagged_ptr() {
        law_field_store_keeps_sound(
            v,
            young,
            old,
            live,
            m.get(f.a as int),
            0,
            m.get(f.b as int),
        );
    }
}

} // verus!
