//! Where collections happen the machine stays sound: collections with the
//! registers saved and looked up again, allocations that collect when there
//! is no room, and stacks that grow.

use crate::activation::{
    law_frame_keeps_sound, lemma_active_stack, lemma_saved, lemma_still_stacked, lemma_word_put,
};
use crate::frames::doubled;
use crate::graph::{fin, listed, tiles, Objects};
use crate::heap::HeapView;
use crate::installs::present;
use crate::machine::{Machine, Regs};
use crate::remembered::{flagged, remembers};
use crate::room::law_kept_graphs_run;
use crate::sliding::{compaction_keeps, law_compaction_keeps_graph, law_first_objects_stay};
use crate::survival::{
    carried, follows, law_scavenge_keeps_graph, lemma_with_roots, same_graph, scavenge_keeps,
};
use crate::treaty::{
    CLASS_STACK, FMT_FIXED, FMT_PTRS, FRAME_RECEIVER, PROCESS_STACK, SPECIAL_NIL,
};
use crate::upkeep::{
    lemma_attempt, lemma_attempt_old, lemma_field_known, lemma_special_known, lemma_stored_in,
    one_more, readable, stacked, tended, Lists,
};
use crate::value::Value;
use crate::vm::VmView;
use vstd::prelude::*;

verus! {

// ---------------------------------------------------------------------------
// Collections
// ---------------------------------------------------------------------------
/// Nil is the first old object.
pub open spec fn nil_first(v: VmView, old: Seq<usize>) -> bool {
    old.len() > 0 && v.specials.len() > SPECIAL_NIL && v.nil() == Value(old[0] as u64)
}

/// The machine's references lead to as many different objects as before, of
/// the same formats and sizes.
pub open spec fn roots_kept(v: VmView, w: VmView) -> bool {
    &&& w.roots().len() == v.roots().len()
    &&& forall|x: int| #[trigger] w.heap.plausible(x) == v.heap.plausible(x)
    &&& forall|i: int|
        0 <= i < v.roots().len() ==> root_kept(v, v.roots()[i], w, #[trigger] w.roots()[i])
    &&& forall|i: int, j: int|
        0 <= i < v.roots().len() && 0 <= j < v.roots().len() && v.roots()[i] != v.roots()[j]
            ==> #[trigger] w.roots()[i] != #[trigger] w.roots()[j]
}

pub open spec fn root_kept(v: VmView, x: Value, w: VmView, y: Value) -> bool {
    if x.tagged_ptr() && v.heap.plausible(x.addr()) {
        &&& y.tagged_ptr()
        &&& w.heap.plausible(y.addr())
        &&& w.heap.nslots(y.addr()) == v.heap.nslots(x.addr())
        &&& w.heap.hdr(y.addr()).byte_format() == v.heap.hdr(x.addr()).byte_format()
    } else {
        y == x
    }
}

pub(crate) proof fn lemma_root_kept(v: VmView, w: VmView, m: Map<int, int>, x: Value, y: Value)
    requires
        same_graph(v, w, m),
        follows(v.heap, m, x, y),
    ensures
        root_kept(v, x, w, y),
        x.tagged_ptr() && v.heap.plausible(x.addr()) ==> m.dom().contains(x.addr()) && y.addr()
            == m[x.addr()],
{
    crate::value::lemma_untag_bits(y);
    if x.tagged_ptr() && v.heap.plausible(x.addr()) {
        assert(carried(v.heap, x.addr(), w.heap, m[x.addr()], m));
        assert(w.heap.whole(m[x.addr()]));
    }
}

/// Different values lead to different places.
proof fn lemma_apart_after(
    v: VmView,
    w: VmView,
    m: Map<int, int>,
    x: Value,
    y: Value,
    x1: Value,
    y1: Value,
)
    requires
        same_graph(v, w, m),
        follows(v.heap, m, x, y),
        follows(v.heap, m, x1, y1),
        x != x1,
    ensures
        y != y1,
{
    lemma_root_kept(v, w, m, x, y);
    lemma_root_kept(v, w, m, x1, y1);
    if y == y1 {
        assert(w.heap.plausible(y.addr()) == v.heap.plausible(y.addr()));
        if x.tagged_ptr() && v.heap.plausible(x.addr()) && x1.tagged_ptr() && v.heap.plausible(
            x1.addr(),
        ) {
            assert(m[x.addr()] == m[x1.addr()]);
        }
    }
}

pub(crate) proof fn lemma_roots_kept(v: VmView, w: VmView, m: Map<int, int>)
    requires
        same_graph(v, w, m),
    ensures
        roots_kept(v, w),
{
    assert forall|i: int| 0 <= i < v.roots().len() implies root_kept(
        v,
        v.roots()[i],
        w,
        #[trigger] w.roots()[i],
    ) by {
        lemma_root_kept(v, w, m, v.roots()[i], w.roots()[i]);
    }
    assert forall|i: int, j: int|
        0 <= i < v.roots().len() && 0 <= j < v.roots().len() && v.roots()[i]
            != v.roots()[j] implies #[trigger] w.roots()[i] != #[trigger] w.roots()[j] by {
        assert(follows(v.heap, m, v.roots()[i], w.roots()[i]));
        assert(follows(v.heap, m, v.roots()[j], w.roots()[j]));
        lemma_apart_after(v, w, m, v.roots()[i], w.roots()[i], v.roots()[j], w.roots()[j]);
    }
}

/// What a collection leaves of a machine.
pub open spec fn collected(v: VmView, l: Lists, w: VmView, l1: Lists) -> bool {
    &&& tended(w, l1.young, l1.old, l1.live)
    &&& remembers(w.heap, l1.old)
    &&& w.specials.len() == v.specials.len()
    &&& w.class_table.len() == v.class_table.len()
    &&& w.temp_roots.len() == v.temp_roots.len()
    &&& w.epoch != v.epoch
    &&& w.max_stack_bytes == v.max_stack_bytes
    &&& roots_kept(v, w)
    &&& exists|m: Map<int, int>| #[trigger] same_graph(v, w, m)
    &&& nil_first(v, l.old) ==> nil_first(w, l1.old) && w.nil() == v.nil()
}

/// A kept graph leaves a machine that runs and is sound.
proof fn lemma_tended_after(
    v: VmView,
    young: Seq<usize>,
    old: Seq<usize>,
    live: Set<int>,
    w: VmView,
    m: Map<int, int>,
    l1: Lists,
)
    requires
        tended(v, young, old, live),
        same_graph(v, w, m),
        w.sound(l1.young, l1.old, l1.live),
        flagged(w.heap, l1.old),
        w.specials.len() == v.specials.len(),
    ensures
        tended(w, l1.young, l1.old, l1.live),
        roots_kept(v, w),
{
    assert(v.runs() && v.specials.len() > SPECIAL_NIL && (v.active.tagged_ptr()
        && v.heap.plausible(v.active.addr()) ==> !v.heap.hdr(v.active.addr()).byte_format())) by {
        reveal(tended);
        reveal(VmView::sound);
    }
    law_kept_graphs_run(v, w, m);
    reveal(tended);
    lemma_roots_kept(v, w, m);
}

/// A scavenge leaves the machine sound, its old objects remembered when they
/// point young, its references on the same objects, and nil in its place.
pub(crate) proof fn lemma_scavenged(
    v: VmView,
    young: Seq<usize>,
    old: Seq<usize>,
    live: Set<int>,
) -> (l1: Lists)
    requires
        tended(v, young, old, live),
    ensures
        v.scavenged() matches Ok(w) ==> collected(v, Lists { young, old, live }, w, l1),
{
    assert(v.sound(young, old, live) && flagged(v.heap, old)) by {
        reveal(tended);
    }
    law_scavenge_keeps_graph(v, young, old, live);
    let mut l1 = Lists { young, old, live };
    if let Ok(w) = v.scavenged() {
        let (m, y1, o1) = choose|m: Map<int, int>, y1: Seq<usize>, o1: Seq<usize>|
            scavenge_keeps(v, old, w, m, y1, o1);
        l1 = Lists { young: y1, old: o1, live: Set::full() };
        lemma_tended_after(v, young, old, live, w, m, l1);
        assert(same_graph(v, w, m));
        assert(w.epoch == v.epoch.wrapping_add(1) && w.max_stack_bytes == v.max_stack_bytes) by {
            reveal(VmView::scavenged);
            reveal(VmView::sample_taken);
        }
        if nil_first(v, old) {
            law_first_objects_stay(v, young, old, live, 1);
            assert(w.specials[0] == v.specials[0]);
            assert(o1.subrange(0, old.len() as int)[0] == o1[0]);
        }
    }
    l1
}

/// The object at the bottom of a space is the first.
proof fn lemma_bottom(h: HeapView, objs: Seq<usize>, p: int, top: int, a: int)
    requires
        tiles(h, objs, p, top),
        listed(objs, a),
        h.storage_start(a) == p,
    ensures
        objs.len() > 0,
        objs[0] == a,
{
    let k = choose|k: int| 0 <= k < objs.len() && #[trigger] objs[k] == a;
    if k > 0 {
        assert(fin(h, objs[0] as int) <= h.storage_start(objs[k] as int));
        assert(h.whole(objs[0] as int));
    }
}

/// So does a collection of old space.
#[verifier::rlimit(60)]
pub(crate) proof fn lemma_compacted_vm(
    v: VmView,
    young: Seq<usize>,
    old: Seq<usize>,
    live: Set<int>,
) -> (l1: Lists)
    requires
        tended(v, young, old, live),
    ensures
        v.compacted() matches Ok(w) ==> collected(v, Lists { young, old, live }, w, l1),
{
    let b = v.objects(young, old, live);
    assert(v.sound(young, old, live) && flagged(v.heap, old) && b.sound()) by {
        reveal(tended);
        reveal(VmView::sound);
    }
    law_compaction_keeps_graph(v, young, old, live);
    let mut l1 = Lists { young, old, live };
    if let Ok(w) = v.compacted() {
        let (m, y1, o1, live1) = choose|
            m: Map<int, int>,
            y1: Seq<usize>,
            o1: Seq<usize>,
            live1: Set<int>,
        | compaction_keeps(v, old, w, m, y1, o1, live1);
        l1 = Lists { young: y1, old: o1, live: live1 };
        lemma_tended_after(v, young, old, live, w, m, l1);
        assert(same_graph(v, w, m));
        assert(w.epoch == v.epoch.wrapping_add(1).wrapping_add(1) && w.max_stack_bytes
            == v.max_stack_bytes) by {
            reveal(VmView::compacted);
            reveal(VmView::scavenged);
            reveal(VmView::sample_taken);
        }
        if nil_first(v, old) {
            law_first_objects_stay(v, young, old, live, 1);
            assert(w.specials[0] == v.specials[0]);
            lemma_first_after(v, young, old, live, w, m, l1);
        }
    }
    l1
}

#[verifier::rlimit(60)]
proof fn lemma_first_after(
    v: VmView,
    young: Seq<usize>,
    old: Seq<usize>,
    live: Set<int>,
    w: VmView,
    m: Map<int, int>,
    l1: Lists,
)
    requires
        tended(v, young, old, live),
        nil_first(v, old),
        same_graph(v, w, m),
        tended(w, l1.young, l1.old, l1.live),
        w.specials.len() == v.specials.len(),
        w.nil() == v.nil(),
        w.heap.old.base == v.heap.old.base,
        w.heap.old.limit() == v.heap.old.limit(),
    ensures
        nil_first(w, l1.old),
{
    let a = old[0] as int;
    let b = v.objects(young, old, live);
    let b1 = l1.of(w);
    assert(b.sound() && b1.sound()) by {
        reveal(tended);
        reveal(VmView::sound);
    }
    assert(listed(old, a));
    crate::soundness::lemma_lies(b, a);
    crate::value::lemma_untag_bits(v.nil());
    lemma_with_roots(v, v.roots());
    lemma_with_roots(w, w.roots());
    let n = SPECIAL_NIL as int;
    assert(v.roots()[n] == v.nil() && w.roots()[n] == w.nil());
    assert(follows(v.heap, m, v.roots()[n], w.roots()[n]));
    lemma_root_kept(v, w, m, v.nil(), w.nil());
    assert(carried(v.heap, a, w.heap, m[a], m));
    assert(m[a] == a);
    assert(b1.known(w.nil())) by {
        lemma_special_known(w, l1.young, l1.old, l1.live, n);
    }
    assert(b1.lists(a));
    crate::soundness::lemma_lies(b1, a);
    assert(v.heap.wf() && w.heap.wf());
    assert(v.heap.storage_start(a) == v.heap.old.base) by {
        reveal(Objects::sound);
    }
    assert(listed(l1.old, a)) by {
        if listed(l1.young, a) {
            assert(w.heap.tenured(a));
        }
    }
    assert(w.heap.storage_start(a) == w.heap.old.base);
    assert(tiles(w.heap, l1.old, w.heap.old.base, w.heap.old.top())) by {
        reveal(Objects::sound);
    }
    lemma_bottom(w.heap, l1.old, w.heap.old.base, w.heap.old.top(), a);
}

/// The registers are on the running stack after a collection.
#[verifier::rlimit(60)]
proof fn lemma_stack_after(
    m: Machine,
    young: Seq<usize>,
    old: Seq<usize>,
    live: Set<int>,
    w: VmView,
    f: Map<int, int>,
    l1: Lists,
)
    requires
        tended(m.vm, young, old, live),
        stacked(m, young, old, live),
        same_graph(m.vm, w, f),
        tended(w, l1.young, l1.old, l1.live),
        w.specials.len() == m.vm.specials.len(),
        w.epoch != m.vm.epoch,
    ensures
        stacked(Machine { vm: w, regs: w.refreshed(m.regs) }, l1.young, l1.old, l1.live),
{
    let v = m.vm;
    let a = v.active.addr();
    let i = PROCESS_STACK as int;
    let st = v.heap.slot(a, i);
    let last = v.roots().len() - 1;
    let n = SPECIAL_NIL as int;
    lemma_active_stack(v, young, old, live);
    lemma_with_roots(v, v.roots());
    lemma_with_roots(w, w.roots());
    assert(v.roots()[n] == v.nil() && w.roots()[n] == w.nil());
    assert(v.roots()[last] == v.active && w.roots()[last] == w.active);
    assert(follows(v.heap, f, v.roots()[last], w.roots()[last]));
    assert(follows(v.heap, f, v.roots()[n], w.roots()[n]));
    lemma_root_kept(v, w, f, v.active, w.active);
    lemma_apart_after(v, w, f, v.active, w.active, v.nil(), w.nil());
    assert(v.heap.plausible(a));
    assert(carried(v.heap, a, w.heap, f[a], f));
    let sw = w.heap.slot(f[a], i);
    assert(follows(v.heap, f, st, sw));
    assert(v.heap.plausible(st.addr())) by {
        reveal(tended);
    }
    lemma_root_kept(v, w, f, st, sw);
    lemma_apart_after(v, w, f, st, sw, v.nil(), w.nil());
    lemma_apart_after(v, w, f, st, sw, v.active, w.active);
    lemma_active_stack(w, l1.young, l1.old, l1.live);
    reveal(VmView::refreshed);
    reveal(VmView::reloaded);
    reveal(VmView::field);
}

/// A scavenge with the registers saved and looked up again.
pub(crate) proof fn lemma_scavenged_here(
    m: Machine,
    young: Seq<usize>,
    old: Seq<usize>,
    live: Set<int>,
) -> (l1: Lists)
    requires
        tended(m.vm, young, old, live),
        stacked(m, young, old, live),
        nil_first(m.vm, old),
    ensures
        m.scavenged() matches Ok(m1) ==> {
            &&& tended(m1.vm, l1.young, l1.old, l1.live)
            &&& stacked(m1, l1.young, l1.old, l1.live)
            &&& remembers(m1.vm.heap, l1.old)
            &&& nil_first(m1.vm, l1.old)
            &&& m1.vm.nil() == m.vm.nil()
            &&& m1.vm.max_stack_bytes == m.vm.max_stack_bytes
        },
{
    reveal(Machine::scavenged);
    let v = m.vm.saved(m.regs);
    lemma_saved(m.vm, young, old, live, m.regs);
    lemma_still_stacked(m, m.on(v), young, old, live);
    let l1 = lemma_scavenged(v, young, old, live);
    if let Ok(w) = v.scavenged() {
        let f = choose|f: Map<int, int>| #[trigger] same_graph(v, w, f);
        lemma_stack_after(m.on(v), young, old, live, w, f, l1);
    }
    assert(v.max_stack_bytes == m.vm.max_stack_bytes) by {
        reveal(VmView::saved);
        reveal(VmView::with_field);
    }
    l1
}

/// A collection of old space with the registers saved and looked up again.
pub(crate) proof fn lemma_compacted_here(
    m: Machine,
    young: Seq<usize>,
    old: Seq<usize>,
    live: Set<int>,
) -> (l1: Lists)
    requires
        tended(m.vm, young, old, live),
        stacked(m, young, old, live),
        nil_first(m.vm, old),
    ensures
        m.compacted() matches Ok(m1) ==> {
            &&& tended(m1.vm, l1.young, l1.old, l1.live)
            &&& stacked(m1, l1.young, l1.old, l1.live)
            &&& remembers(m1.vm.heap, l1.old)
            &&& nil_first(m1.vm, l1.old)
            &&& m1.vm.nil() == m.vm.nil()
            &&& m1.vm.max_stack_bytes == m.vm.max_stack_bytes
        },
{
    reveal(Machine::compacted);
    let v = m.vm.saved(m.regs);
    lemma_saved(m.vm, young, old, live, m.regs);
    lemma_still_stacked(m, m.on(v), young, old, live);
    let l1 = lemma_compacted_vm(v, young, old, live);
    if let Ok(w) = v.compacted() {
        let f = choose|f: Map<int, int>| #[trigger] same_graph(v, w, f);
        lemma_stack_after(m.on(v), young, old, live, w, f, l1);
    }
    assert(v.max_stack_bytes == m.vm.max_stack_bytes) by {
        reveal(VmView::saved);
        reveal(VmView::with_field);
    }
    l1
}

// ---------------------------------------------------------------------------
// Allocation
// ---------------------------------------------------------------------------
/// The registers are on the running stack when there is one object more.
proof fn lemma_stacked_more(
    m: Machine,
    young: Seq<usize>,
    old: Seq<usize>,
    live: Set<int>,
    w: VmView,
    x: Value,
    l1: Lists,
)
    requires
        tended(m.vm, young, old, live),
        stacked(m, young, old, live),
        one_more(m.vm, young, old, live, w, x, l1),
    ensures
        stacked(m.on(w), l1.young, l1.old, l1.live),
        nil_first(m.vm, old) ==> nil_first(w, l1.old),
        x.addr() != m.vm.active.addr(),
        x.addr() != m.regs.stack.addr(),
{
    lemma_still_stacked(m, m.on(w), young, old, live);
    lemma_active_stack(m.vm, young, old, live);
    assert(m.vm.objects(young, old, live).lists(m.vm.active.addr()));
    crate::value::lemma_untag_bits(m.regs.stack);
    assert(m.vm.heap.plausible(m.regs.stack.addr())) by {
        reveal(tended);
    }
    assert(m.vm.objects(young, old, live).lists(m.regs.stack.addr()));
    if nil_first(m.vm, old) {
        assert(l1.old.subrange(0, old.len() as int)[0] == l1.old[0]);
    }
}

/// Nil is known and not young.
pub(crate) proof fn lemma_nil_old(v: VmView, young: Seq<usize>, old: Seq<usize>, live: Set<int>)
    requires
        tended(v, young, old, live),
        nil_first(v, old),
    ensures
        v.objects(young, old, live).known(v.nil()),
        !v.heap.young(v.nil().addr()),
{
    lemma_special_known(v, young, old, live, SPECIAL_NIL as int);
    let b = v.objects(young, old, live);
    assert(b.sound()) by {
        reveal(tended);
        reveal(VmView::sound);
    }
    assert(listed(old, old[0] as int));
    crate::soundness::lemma_lies(b, old[0] as int);
}

/// An allocation that collects when there is no room leaves the machine
/// sound, the registers on the running stack, and the new object one of the
/// machine's.
#[verifier::rlimit(60)]
pub proof fn law_allocation_here_keeps_sound(
    m: Machine,
    young: Seq<usize>,
    old: Seq<usize>,
    live: Set<int>,
    class: u32,
    format: u64,
    n: int,
) -> (l: Lists)
    requires
        tended(m.vm, young, old, live),
        stacked(m, young, old, live),
        nil_first(m.vm, old),
        0 < class <= crate::heap::MAX_CLASS_INDEX,
        0 <= n < 0x400_0000_0000,
    ensures
        m.allocated(class, format, n) matches Ok((m1, x)) ==> {
            &&& tended(m1.vm, l.young, l.old, l.live)
            &&& stacked(m1, l.young, l.old, l.live)
            &&& nil_first(m1.vm, l.old)
            &&& x.tagged_ptr()
            &&& l.of(m1.vm).has(x.addr())
            &&& x.addr() != m1.vm.active.addr()
            &&& x.addr() != m1.regs.stack.addr()
            &&& format == FMT_FIXED || format == FMT_PTRS ==> !m1.vm.heap.large(n) ==> !listed(
                l.old,
                x.addr(),
            )
            &&& format == FMT_FIXED || format == FMT_PTRS ==> !m1.vm.heap.hdr(
                x.addr(),
            ).byte_format()
        },
{
    reveal(Machine::allocated);
    let nil = m.vm.nil();
    lemma_nil_old(m.vm, young, old, live);
    match m.vm.heap.attempt(class, format, n, nil) {
        Some((h, x)) => {
            let l = lemma_attempt(m.vm, young, old, live, class, format, n, nil);
            lemma_stacked_more(m, young, old, live, m.vm.on_heap(h), x, l);
            l
        },
        None => {
            let l1 = lemma_scavenged_here(m, young, old, live);
            match m.scavenged() {
                Err(_) => l1,
                Ok(m1) => {
                    lemma_nil_old(m1.vm, l1.young, l1.old, l1.live);
                    match m1.vm.heap.attempt(class, format, n, nil) {
                        Some((h, x)) => {
                            let l = lemma_attempt(
                                m1.vm,
                                l1.young,
                                l1.old,
                                l1.live,
                                class,
                                format,
                                n,
                                nil,
                            );
                            lemma_stacked_more(
                                m1,
                                l1.young,
                                l1.old,
                                l1.live,
                                m1.vm.on_heap(h),
                                x,
                                l,
                            );
                            l
                        },
                        None => {
                            let l2 = lemma_compacted_here(m1, l1.young, l1.old, l1.live);
                            match m1.compacted() {
                                Err(_) => l2,
                                Ok(m2) => {
                                    lemma_nil_old(m2.vm, l2.young, l2.old, l2.live);
                                    let l = lemma_attempt(
                                        m2.vm,
                                        l2.young,
                                        l2.old,
                                        l2.live,
                                        class,
                                        format,
                                        n,
                                        nil,
                                    );
                                    if let Some((h, x)) = m2.vm.heap.attempt(
                                        class,
                                        format,
                                        n,
                                        nil,
                                    ) {
                                        lemma_stacked_more(
                                            m2,
                                            l2.young,
                                            l2.old,
                                            l2.live,
                                            m2.vm.on_heap(h),
                                            x,
                                            l,
                                        );
                                    }
                                    l
                                },
                            }
                        },
                    }
                },
            }
        },
    }
}

// ---------------------------------------------------------------------------
// Growth
// ---------------------------------------------------------------------------
/// Stores to different words can change places.
proof fn lemma_write_swap(h: HeapView, a: int, x: u64, c: int, y: u64)
    requires
        h.wf(),
        h.plausible(a),
        h.plausible(c),
        a != c,
    ensures
        h.write(a, x).write(c, y) == h.write(c, y).write(a, x),
{
    reveal(HeapView::write);
    let r = h.write(a, x).write(c, y);
    let t = h.write(c, y).write(a, x);
    assert(r.from.mem =~= t.from.mem);
    assert(r.to.mem =~= t.to.mem);
    assert(r.old.mem =~= t.old.mem);
    assert(r =~= t);
}

/// A store into one object and a store behind the barrier into another can
/// change places.
#[verifier::rlimit(60)]
proof fn lemma_store_swap(b: Objects, o: int, i: int, y: Value, p: int, j: int, x: Value)
    requires
        b.sound(),
        b.lists(o),
        b.lists(p),
        o != p,
        0 <= i < b.heap.nslots(o),
        0 <= j < b.heap.nslots(p),
    ensures
        b.heap.set_slot(o, i, y).store(p, j, x) == b.heap.store(p, j, x).set_slot(o, i, y),
{
    let h = b.heap;
    let a = o + 8 + 8 * i;
    let c = p + 8 + 8 * j;
    crate::soundness::lemma_lies(b, o);
    crate::soundness::lemma_lies(b, p);
    crate::soundness::lemma_disjoint(b, o, p);
    assert(h.wf()) by {
        reveal(Objects::sound);
    }
    lemma_write_swap(h, a, y.0, c, x.0);
    let h1 = h.set_slot(p, j, x);
    let g1 = h.set_slot(o, i, y).set_slot(p, j, x);
    crate::graph::lemma_reads_after_write(h, c, x.0);
    crate::graph::lemma_reads_after_write(h1, a, y.0);
    assert(g1 == h1.write(a, y.0));
    assert(g1.read(p) == h1.read(p));
    let hd = h1.hdr(p);
    let w = hd.regc(hd.gc_field() | 2).0;
    lemma_write_swap(h1, a, y.0, p, w);
    let h2 = h1.write(p, w);
    let g2 = g1.write(p, w);
    assert(HeapView { ssb: g2.ssb.push(p as usize), ..g2 } == HeapView {
        ssb: h2.ssb.push(p as usize),
        ..h2
    }.write(a, y.0)) by {
        reveal(HeapView::write);
    }
}

/// Copying into a fresh object and storing into another can change places.
#[verifier::rlimit(60)]
proof fn lemma_copy_swap(
    v: VmView,
    b: Objects,
    from: Value,
    to: Value,
    i: int,
    n: int,
    p: Value,
    j: int,
    x: Value,
)
    requires
        b.sound(),
        b.heap == v.heap,
        b.known(v.nil()),
        b.has(from.addr()),
        b.has(to.addr()),
        b.lists(p.addr()),
        !b.heap.hdr(from.addr()).byte_format(),
        !b.heap.hdr(to.addr()).byte_format(),
        to.addr() != p.addr(),
        from.addr() != p.addr(),
        0 <= i,
        n <= b.heap.nslots(to.addr()),
        0 <= j < b.heap.nslots(p.addr()),
    ensures
        v.copied(from, to, i, n).with_stored(p, j, x) == v.with_stored(p, j, x).copied(
            from,
            to,
            i,
            n,
        ),
    decreases n - i,
{
    if i < n {
        let h = v.heap;
        let y = v.field(from, i);
        assert(b.known(y)) by {
            reveal(VmView::field);
            reveal(Objects::sound);
        }
        crate::soundness::lemma_lies(b, to.addr());
        crate::soundness::lemma_lies(b, p.addr());
        crate::soundness::lemma_lies(b, from.addr());
        reveal(VmView::with_field);
        reveal(VmView::with_stored);
        let v1 = v.with_field(to, i, y);
        let b1 = crate::soundness::with_heap(b, v1.heap);
        crate::soundness::law_store_keeps_heap_sound(b, to.addr(), i, y);
        assert(b.lists(from.addr()) && b.lists(to.addr()));
        assert(b1.has(from.addr()) && b1.has(to.addr()) && b1.lists(p.addr()));
        lemma_copy_swap(v1, b1, from, to, i + 1, n, p, j, x);
        crate::soundness::lemma_lies(b1, p.addr());
        lemma_store_swap(b, to.addr(), i, y, p.addr(), j, x);
        let w = v.with_stored(p, j, x);
        assert(w.heap == h.store(p.addr(), j, x));
        lemma_beside_store(b, p.addr(), j, x, to.addr());
        lemma_beside_store(b, p.addr(), j, x, from.addr());
        assert(w.field(from, i) == y) by {
            reveal(VmView::field);
        }
        assert(v1.with_stored(p, j, x) == w.with_field(to, i, y));
    }
}

/// A store behind the barrier leaves another object as it was.
#[verifier::rlimit(60)]
pub(crate) proof fn lemma_beside_store(b: Objects, p: int, j: int, x: Value, o: int)
    requires
        b.sound(),
        b.lists(p),
        b.lists(o),
        o != p,
        0 <= j < b.heap.nslots(p),
    ensures
        b.heap.store(p, j, x).layout() == b.heap.layout(),
        b.heap.store(p, j, x).nslots(o) == b.heap.nslots(o),
        b.heap.store(p, j, x).hdr(o) == b.heap.hdr(o),
        b.heap.store(p, j, x).whole(o),
        forall|i: int|
            0 <= i < b.heap.nslots(o) ==> #[trigger] b.heap.store(p, j, x).slot(o, i)
                == b.heap.slot(o, i),
{
    let h = b.heap;
    let c = p + 8 + 8 * j;
    crate::soundness::lemma_lies(b, o);
    crate::soundness::lemma_lies(b, p);
    crate::soundness::lemma_disjoint(b, o, p);
    assert(h.wf()) by {
        reveal(Objects::sound);
    }
    let h1 = h.set_slot(p, j, x);
    crate::graph::lemma_reads_after_write(h, c, x.0);
    let hd = h1.hdr(p);
    let w = hd.regc(hd.gc_field() | 2).0;
    crate::graph::lemma_reads_after_write(h1, p, w);
    let h2 = h1.write(p, w);
    let h3 = HeapView { ssb: h2.ssb.push(p as usize), ..h2 };
    assert(forall|y: int| #[trigger] h3.read(y) == h2.read(y)) by {
        reveal(HeapView::read);
    }
    let r = h.store(p, j, x);
    assert(r.read(o) == h.read(o));
    if h.has_over(o) {
        assert(h.plausible(o - 8));
        assert(r.read(o - 8) == h.read(o - 8));
    }
    assert forall|i: int| 0 <= i < h.nslots(o) implies #[trigger] r.slot(o, i) == h.slot(o, i) by {
        let y = o + 8 + 8 * i;
        assert(h.plausible(y));
        assert(r.read(y) == h.read(y));
    }
}

/// A stack can be left behind: it is young, remembered, or points nowhere
/// young.
pub open spec fn leaves_clean(v: VmView, old: Seq<usize>, stack: Value) -> bool {
    listed(old, stack.addr()) && v.heap.points_young(stack.addr()) ==> listed(
        v.heap.ssb,
        stack.addr(),
    )
}

/// The active process given a new, empty stack.
#[verifier::rlimit(60)]
#[verifier::spinoff_prover]
proof fn lemma_new_stack(
    m: Machine,
    young: Seq<usize>,
    old: Seq<usize>,
    live: Set<int>,
    x: Value,
)
    requires
        tended(m.vm, young, old, live),
        stacked(m, young, old, live),
        leaves_clean(m.vm, old, m.regs.stack),
        m.vm.objects(young, old, live).has(x.addr()),
        x.tagged_ptr(),
        x != m.vm.nil(),
        x.addr() != m.vm.active.addr(),
        !m.vm.heap.hdr(x.addr()).byte_format(),
    ensures
        ({
            let w = m.vm.with_stored(m.vm.active, PROCESS_STACK as int, x);
            let n = Machine { vm: w, regs: Regs { stack: x, ..m.regs } };
            &&& tended(w, young, old, live)
            &&& stacked(n, young, old, live)
            &&& w.heap.layout() == m.vm.heap.layout()
            &&& forall|o: int| #[trigger]
                present(young, old, o) ==> w.heap.hdr(o).format_field() == m.vm.heap.hdr(
                    o,
                ).format_field() && w.heap.nslots(o) == m.vm.heap.nslots(o)
        }),
{
    let v = m.vm;
    let b = v.objects(young, old, live);
    let a = v.active.addr();
    let i = PROCESS_STACK as int;
    let h = v.heap;
    lemma_active_stack(v, young, old, live);
    assert(b.sound() && flagged(h, old) && forall|k: int|
        0 <= k < h.ssb.len() ==> listed(old, (#[trigger] h.ssb[k]) as int)) by {
        reveal(tended);
        reveal(VmView::sound);
    }
    reveal(VmView::with_stored);
    let r = h.store(a, i, x);
    let w = v.on_heap(r);
    assert(b.lists(a) && b.lists(x.addr()));
    crate::soundness::lemma_lies(b, x.addr());
    lemma_stored_in(b, a, i, x);
    let b1 = w.objects(young, old, live);
    assert(b1 == crate::soundness::with_heap(b, r));
    assert(b1.lists(a));
    crate::soundness::lemma_lies(b1, a);
    assert(w.roots() =~= v.roots());
    assert(w.running_stack() == Some(x.addr()));
    assert forall|o: int| #[trigger] present(young, old, o) implies r.hdr(o).format_field()
        == h.hdr(o).format_field() && r.nslots(o) == h.nslots(o) by {
        assert(b.lists(o));
    }
    assert(w.sound(young, old, live)) by {
        reveal(tended);
        reveal(VmView::sound);
        assert forall|k: int| 0 <= k < w.roots().len() implies b1.known(#[trigger] w.roots()[k]) by {
            assert(b.known(v.roots()[k]));
        }
        assert forall|o: int, j: int|
            listed(old, o) && !r.hdr(o).byte_format() && 0 <= j < r.nslots(o) && (#[trigger] r.slot(
                o,
                j,
            )).tagged_ptr() && r.young(r.slot(o, j).addr()) implies listed(r.ssb, o)
            || w.running_stack() == Some(o) by {
            assert(b.lists(o));
            if o != a || j != i {
                assert(r.slot(o, j) == h.slot(o, j));
                assert(listed(h.ssb, o) || v.running_stack() == Some(o));
                if o == m.regs.stack.addr() {
                    crate::soundness::lemma_lies(b, o);
                    assert(h.points_young(o));
                }
            }
        }
    }
    assert(tended(w, young, old, live)) by {
        reveal(tended);
    }
    assert(present(young, old, x.addr()));
}

/// Words copied from one object into the running stack keep the machine
/// sound.
proof fn lemma_copied_here(
    m: Machine,
    young: Seq<usize>,
    old: Seq<usize>,
    live: Set<int>,
    from: Value,
    i: int,
    n: int,
)
    requires
        tended(m.vm, young, old, live),
        stacked(m, young, old, live),
        readable(m.vm.objects(young, old, live), from),
    ensures
        tended(m.vm.copied(from, m.regs.stack, i, n), young, old, live),
        stacked(m.on(m.vm.copied(from, m.regs.stack, i, n)), young, old, live),
        m.vm.copied(from, m.regs.stack, i, n).heap.layout() == m.vm.heap.layout(),
    decreases n - i,
{
    if i < n {
        let st = m.regs.stack;
        let x = m.vm.field(from, i);
        lemma_field_known(m.vm, young, old, live, from, i);
        lemma_word_put(m, young, old, live, i, x);
        let v1 = m.vm.with_field(st, i, x);
        crate::value::lemma_untag_bits(from);
        if m.vm.heap.plausible(from.addr()) {
            assert(present(young, old, from.addr()));
        }
        lemma_copied_here(m.on(v1), young, old, live, from, i + 1, n);
    }
}

/// The running process moved to a new stack.
#[verifier::rlimit(60)]
proof fn lemma_restacked(
    m: Machine,
    young: Seq<usize>,
    old: Seq<usize>,
    live: Set<int>,
    x: Value,
    cur: int,
)
    requires
        tended(m.vm, young, old, live),
        stacked(m, young, old, live),
        leaves_clean(m.vm, old, m.regs.stack),
        m.vm.objects(young, old, live).has(x.addr()),
        x.tagged_ptr(),
        x != m.vm.nil(),
        x.addr() != m.vm.active.addr(),
        !m.vm.heap.hdr(x.addr()).byte_format(),
        cur <= m.vm.heap.nslots(x.addr()),
    ensures
        tended(m.restacked(cur, x).vm, young, old, live),
        stacked(m.restacked(cur, x), young, old, live),
        m.restacked(cur, x).vm.specials == m.vm.specials,
        m.restacked(cur, x).vm.heap.layout() == m.vm.heap.layout(),
{
    let v = m.vm;
    let st = m.regs.stack;
    let b = v.objects(young, old, live);
    lemma_active_stack(v, young, old, live);
    lemma_special_known(v, young, old, live, SPECIAL_NIL as int);
    assert(b.sound() && v.heap.plausible(st.addr())) by {
        reveal(tended);
        reveal(VmView::sound);
    }
    lemma_new_stack(m, young, old, live, x);
    let w = v.with_stored(v.active, PROCESS_STACK as int, x);
    let n = Machine { vm: w, regs: Regs { stack: x, ..m.regs } };
    crate::value::lemma_untag_bits(st);
    assert(b.has(st.addr()));
    assert(present(young, old, st.addr()));
    lemma_copied_here(n, young, old, live, st, 0, cur);
    lemma_copy_swap(v, b, st, x, 0, cur, v.active, PROCESS_STACK as int, x);
    let w1 = w.copied(st, x, 0, cur);
    let w2 = VmView { stack_grows: w1.stack_grows.wrapping_add(1), ..w1 };
    assert(w2 == m.restacked(cur, x).vm);
    assert(tended(w2, young, old, live)) by {
        reveal(tended);
        reveal(VmView::sound);
        assert(w2.roots() =~= w1.roots());
        assert(w2.objects(young, old, live) == w1.objects(young, old, live));
        assert(w2.running_stack() == w1.running_stack());
    }
    crate::frames::lemma_copied_frame(w, st, x, 0, cur);
    assert(w1.specials == w.specials && w.specials == v.specials && w2.running_stack()
        == w1.running_stack()) by {
        reveal(VmView::with_stored);
    }
}

/// A stack that grows leaves the machine sound, and the registers on the new
/// stack. Where it grows without a collection, the stack left behind has to
/// be young, remembered, or without young pointers.
#[verifier::rlimit(60)]
pub proof fn law_growth_keeps_sound(
    m: Machine,
    young: Seq<usize>,
    old: Seq<usize>,
    live: Set<int>,
    needed: int,
) -> (l: Lists)
    requires
        tended(m.vm, young, old, live),
        stacked(m, young, old, live),
        nil_first(m.vm, old),
        m.vm.max_stack_bytes < 0x2000_0000_0000,
        grows_here(m, needed) ==> leaves_clean(m.vm, old, m.regs.stack),
    ensures
        m.grown(needed) matches Ok(m1) ==> {
            &&& tended(m1.vm, l.young, l.old, l.live)
            &&& stacked(m1, l.young, l.old, l.live)
            &&& nil_first(m1.vm, l.old)
            &&& grows_here(m, needed) ==> forall|y: Value| #[trigger]
                m.vm.objects(young, old, live).known(y) ==> l.of(m1.vm).known(y)
        },
{
    reveal(Machine::grown);
    reveal(Machine::stack_made);
    let cur = m.vm.slots(m.regs.stack);
    let new = doubled(2 * cur, needed);
    let nil = m.vm.nil();
    let none = Lists { young, old, live };
    if cur <= 0 || 8 * new > m.vm.max_stack_bytes {
        none
    } else {
        crate::frames::lemma_doubled(2 * cur, needed);
        lemma_nil_old(m.vm, young, old, live);
        match m.vm.heap.attempt(CLASS_STACK, FMT_PTRS, new, nil) {
            Some((h, x)) => {
                let l = lemma_attempt(m.vm, young, old, live, CLASS_STACK, FMT_PTRS, new, nil);
                lemma_moved_up(m, young, old, live, m.vm.on_heap(h), x, l, cur);
                l
            },
            None => match m.vm.heap.alloc_old(CLASS_STACK, FMT_PTRS, new, Some(nil.0), false) {
                Some((h, a)) => {
                    let l = lemma_attempt_old(m.vm, young, old, live, CLASS_STACK, new, nil);
                    let x = Value(a as u64);
                    lemma_moved_up(m, young, old, live, m.vm.on_heap(h), x, l, cur);
                    l
                },
                None => {
                    let l1 = lemma_compacted_here(m, young, old, live);
                    match m.compacted() {
                        Err(_) => l1,
                        Ok(m1) => {
                            lemma_nil_old(m1.vm, l1.young, l1.old, l1.live);
                            let l = lemma_attempt_old(
                                m1.vm,
                                l1.young,
                                l1.old,
                                l1.live,
                                CLASS_STACK,
                                new,
                                nil,
                            );
                            if let Some((h, a)) = m1.vm.heap.alloc_old(
                                CLASS_STACK,
                                FMT_PTRS,
                                new,
                                Some(nil.0),
                                false,
                            ) {
                                lemma_moved_up(
                                    m1,
                                    l1.young,
                                    l1.old,
                                    l1.live,
                                    m1.vm.on_heap(h),
                                    Value(a as u64),
                                    l,
                                    cur,
                                );
                            }
                            l
                        },
                    }
                },
            },
        }
    }
}

/// There is room for a stack that has the slots needed without a collection.
pub open spec fn grows_here(m: Machine, needed: int) -> bool {
    let new = doubled(2 * m.vm.slots(m.regs.stack), needed);
    let nil = m.vm.nil();
    m.vm.heap.attempt(CLASS_STACK, FMT_PTRS, new, nil) is Some || m.vm.heap.alloc_old(
        CLASS_STACK,
        FMT_PTRS,
        new,
        Some(nil.0),
        false,
    ) is Some
}

/// The running process moved to a stack that was just allocated.
#[verifier::rlimit(60)]
proof fn lemma_moved_up(
    m: Machine,
    young: Seq<usize>,
    old: Seq<usize>,
    live: Set<int>,
    w: VmView,
    x: Value,
    l: Lists,
    cur: int,
)
    requires
        tended(m.vm, young, old, live),
        stacked(m, young, old, live),
        nil_first(m.vm, old),
        leaves_clean(m.vm, old, m.regs.stack),
        one_more(m.vm, young, old, live, w, x, l),
        w.heap.hdr(x.addr()).format_field() == FMT_PTRS,
        cur <= w.heap.nslots(x.addr()),
    ensures
        tended(m.on(w).restacked(cur, x).vm, l.young, l.old, l.live),
        stacked(m.on(w).restacked(cur, x), l.young, l.old, l.live),
        nil_first(m.on(w).restacked(cur, x).vm, l.old),
        forall|y: Value| #[trigger]
            m.vm.objects(young, old, live).known(y) ==> l.of(
                m.on(w).restacked(cur, x).vm,
            ).known(y),
{
    let b = m.vm.objects(young, old, live);
    let st = m.regs.stack.addr();
    lemma_stacked_more(m, young, old, live, w, x, l);
    lemma_active_stack(m.vm, young, old, live);
    lemma_nil_old(m.vm, young, old, live);
    assert(b.lists(m.vm.active.addr()));
    assert(listed(old, old[0] as int));
    assert(b.sound() && m.vm.heap.plausible(st)) by {
        reveal(tended);
        reveal(VmView::sound);
    }
    crate::soundness::lemma_lies(b, old[0] as int);
    assert(b.lists(old[0] as int));
    assert(x != m.vm.nil());
    crate::value::lemma_untag_bits(m.regs.stack);
    assert(b.lists(st));
    assert(leaves_clean(w, l.old, m.regs.stack)) by {
        if listed(l.old, st) && w.heap.points_young(st) {
            assert(listed(old, st));
            crate::soundness::lemma_lies(b, st);
            assert(present(young, old, st));
            let i = choose|i: int|
                0 <= i < w.heap.nslots(st) && (#[trigger] w.heap.slot(st, i)).tagged_ptr()
                    && w.heap.young(w.heap.slot(st, i).addr());
            assert(w.heap.slot(st, i) == m.vm.heap.slot(st, i));
            assert(m.vm.heap.points_young(st));
        }
    }
    lemma_restacked(m.on(w), l.young, l.old, l.live, x, cur);
    let r = m.on(w).restacked(cur, x).vm;
    assert forall|y: Value| #[trigger] b.known(y) implies l.of(r).known(y) by {
        assert(r.heap.layout() == m.vm.heap.layout());
        if y.tagged_ptr() && r.heap.plausible(y.addr()) {
            assert(b.has(y.addr()));
            assert(l.of(w).has(y.addr()));
        }
    }
}

/// A frame pushed for a known method leaves the machine sound, and the
/// registers on the running stack, under the conditions for growth.
#[verifier::rlimit(60)]
pub proof fn law_push_keeps_sound(
    m: Machine,
    young: Seq<usize>,
    old: Seq<usize>,
    live: Set<int>,
    method: Value,
    r: u8,
    dest: u8,
    argc: int,
    fail: Option<i64>,
    extra: u64,
) -> (l: Lists)
    requires
        tended(m.vm, young, old, live),
        stacked(m, young, old, live),
        nil_first(m.vm, old),
        m.vm.objects(young, old, live).known(method),
        m.vm.max_stack_bytes < 0x2000_0000_0000,
        frame_end(m, method, r) > m.vm.slots(m.regs.stack) ==> grows_here(m, frame_end(m, method, r))
            && leaves_clean(m.vm, old, m.regs.stack),
    ensures
        m.pushed(method, r, dest, argc, fail, extra) matches Ok(m1) ==> {
            &&& tended(m1.vm, l.young, l.old, l.live)
            &&& stacked(m1, l.young, l.old, l.live)
            &&& nil_first(m1.vm, l.old)
        },
{
    let needed = frame_end(m, method, r);
    if needed > m.vm.slots(m.regs.stack) {
        let l = law_growth_keeps_sound(m, young, old, live, needed);
        if let Ok(m1) = m.grown(needed) {
            assert(l.of(m1.vm).known(method));
            law_frame_keeps_sound(
                m1,
                l.young,
                l.old,
                l.live,
                method,
                r,
                dest,
                argc,
                fail,
                extra,
            );
        }
        l
    } else {
        law_frame_keeps_sound(m, young, old, live, method, r, dest, argc, fail, extra);
        Lists { young, old, live }
    }
}

/// One past the last slot of a frame for a method at slot `r`.
pub open spec fn frame_end(m: Machine, method: Value, r: u8) -> int {
    m.regs.frame + r + FRAME_RECEIVER + crate::vm::mh_frame_slots(m.vm.method_bits(method))
}

} // verus!
