//! A machine loaded from the image of a machine whose references all lead to
//! objects of old space is sound.

use crate::booting::ground;
use crate::graph::{headed, listed, tiles, Objects};
use crate::heap::{HeapView, MAX_CLASS_INDEX};
use crate::image::shifted;
use crate::reload::{
    lemma_image_head, lemma_image_objects, lemma_loaded, lemma_shift_addr, rebased, reloaded,
    settled_in, walkable,
};
use crate::remembered::flagged;
use crate::room::spare;
use crate::soundness::lemma_lies;
use crate::symbols::{
    has_sites, lemma_places, sites_in, sites_known, sites_slot, symbols_in, tables_of,
};
use crate::treaty::{
    IMG_HEADER_SIZE, METHOD_SEND_SITES, PROCESS_STACK, SPECIAL_CLASS_LIST, SPECIAL_NIL,
    SPECIAL_OBJECTS_COUNT,
};
use crate::value::Value;
use crate::vm::{VmConfig, VmView};
use vstd::prelude::*;

verus! {

/// Every reference of a list leads to one of the objects.
pub open spec fn all_inside(objs: Seq<usize>, list: Seq<Value>) -> bool {
    forall|i: int|
        0 <= i < list.len() && (#[trigger] list[i]).tagged_ptr() ==> listed(objs, list[i].addr())
}

/// Every reference of the objects leads to one of them.
pub open spec fn closed(h: HeapView, objs: Seq<usize>) -> bool {
    forall|a: int, i: int|
        listed(objs, a) && !h.hdr(a).byte_format() && 0 <= i < h.nslots(a) && (#[trigger] h.slot(
            a,
            i,
        )).tagged_ptr() ==> listed(objs, h.slot(a, i).addr())
}

/// A reference to an object of the written space, moved, is one to the loaded
/// space.
proof fn lemma_moved_inside(h: HeapView, objs: Seq<usize>, g: HeapView, v: Value)
    requires
        h.wf(),
        g.wf(),
        tiles(h, objs, h.old.base, h.old.top()),
        g.old.alloc == h.old.alloc,
        v.tagged_ptr() ==> listed(objs, v.addr()),
    ensures
        ({
            let delta = (g.old.base as u64).wrapping_sub(h.old.base as u64);
            let w = shifted(v, delta);
            &&& v.tagged_ptr() ==> w == Value((v.addr() + (g.old.base - h.old.base)) as u64)
                && w.tagged_ptr() && listed(rebased(objs, h.old.base, g.old.base), w.addr())
            &&& !v.tagged_ptr() ==> w == v
        }),
{
    if v.tagged_ptr() {
        crate::graph::lemma_within(h, objs, h.old.base, h.old.top(), v.addr());
        crate::value::lemma_untag_bits(v);
        lemma_shift_addr(v.addr(), h.old.base, g.old.base);
        let k = choose|k: int| 0 <= k < objs.len() && #[trigger] objs[k] == v.addr();
        let t = rebased(objs, h.old.base, g.old.base);
        assert(t[k] == v.addr() - h.old.base + g.old.base);
        let w = Value((v.addr() + (g.old.base - h.old.base)) as u64);
        assert(v == Value(v.addr() as u64));
        crate::value::lemma_untag_bits(w);
        assert(listed(t, t[k] as int));
    }
}

/// A loaded heap whose objects come from a closed one is sound.
#[verifier::rlimit(60)]
#[verifier::spinoff_prover]
proof fn lemma_loaded_heap_sound(h: HeapView, objs: Seq<usize>, g: HeapView, delta: u64)
    requires
        h.wf(),
        walkable(h, objs),
        closed(h, objs),
        g.old.alloc == h.old.alloc,
        delta == (g.old.base as u64).wrapping_sub(h.old.base as u64),
        settled_in(g, rebased(objs, h.old.base, g.old.base)),
        forall|k: int|
            0 <= k < objs.len() ==> reloaded(
                h,
                (#[trigger] objs[k]) as int,
                g,
                objs[k] + (g.old.base - h.old.base),
                delta,
            ),
    ensures
        ground(g, rebased(objs, h.old.base, g.old.base)).sound(),
{
    reveal(settled_in);
    let d = g.old.base - h.old.base;
    let t = rebased(objs, h.old.base, g.old.base);
    let b = ground(g, t);
    assert forall|k: int| 0 <= k < objs.len() implies t[k] == (#[trigger] objs[k]) + d by {
        assert(listed(objs, objs[k] as int));
        crate::graph::lemma_within(h, objs, h.old.base, h.old.top(), objs[k] as int);
        assert(reloaded(h, objs[k] as int, g, objs[k] + d, delta));
    }
    assert forall|a: int| #[trigger] b.lists(a) implies g.read(a) & 1 == 0 && headed(g, a) by {
        let k = choose|k: int| 0 <= k < t.len() && #[trigger] t[k] == a;
        assert(headed(g, t[k] as int));
    }
    assert forall|a: int, i: int|
        b.has(a) && !g.hdr(a).byte_format() && 0 <= i < g.nslots(a) implies b.known(
        #[trigger] g.slot(a, i),
    ) by {
        let k = choose|k: int| 0 <= k < t.len() && #[trigger] t[k] == a;
        let o = objs[k] as int;
        assert(t[k] == objs[k] + d);
        assert(reloaded(h, objs[k] as int, g, objs[k] + d, delta));
        assert(listed(objs, o));
        assert(g.slot(a, i) == shifted(h.slot(o, i), delta));
        lemma_moved_inside(h, objs, g, h.slot(o, i));
    }
    reveal(Objects::sound);
}

/// The symbols and send sites of a loaded machine are objects.
#[verifier::rlimit(60)]
proof fn lemma_tables_inside(
    h: HeapView,
    objs: Seq<usize>,
    g: HeapView,
    delta: u64,
    symbols: Seq<Value>,
    names: Seq<Seq<u8>>,
    sites: Seq<Value>,
)
    requires
        h.wf(),
        g.wf(),
        tiles(h, objs, h.old.base, h.old.top()),
        g.old.alloc == h.old.alloc,
        delta == (g.old.base as u64).wrapping_sub(h.old.base as u64),
        sites_known(h, objs),
        tables_of(h, objs, g.old.base - h.old.base, delta, symbols, names, sites),
    ensures
        all_inside(rebased(objs, h.old.base, g.old.base), symbols),
        all_inside(rebased(objs, h.old.base, g.old.base), sites),
{
    reveal(tables_of);
    let t = rebased(objs, h.old.base, g.old.base);
    let n = objs.len() as int;
    let p = |k: int| crate::symbols::is_symbol(h, objs[k] as int);
    let q = |k: int| has_sites(h, objs[k] as int);
    lemma_places(p, 0, n);
    lemma_places(q, 0, n);
    let sy = symbols_in(h, objs);
    let si = sites_in(h, objs);
    assert forall|i: int|
        0 <= i < symbols.len() && (#[trigger] symbols[i]).tagged_ptr() implies listed(
        t,
        symbols[i].addr(),
    ) by {
        let k = sy[i];
        assert(0 <= k < n);
        let o = objs[k] as int;
        assert(listed(objs, objs[k] as int));
        crate::graph::lemma_within(h, objs, h.old.base, h.old.top(), o);
        assert(symbols[i] == Value((objs[sy[i]] + (g.old.base - h.old.base)) as u64));
        assert(t[k] == symbols[i].addr());
        assert(listed(t, t[k] as int));
    }
    assert forall|i: int|
        0 <= i < sites.len() && (#[trigger] sites[i]).tagged_ptr() implies listed(
        t,
        sites[i].addr(),
    ) by {
        let k = si[i];
        assert(0 <= k < n && q(k));
        let s = sites_slot(h, objs[k] as int);
        assert(sites[i] == shifted(sites_slot(h, objs[si[i]] as int), delta));
        assert(listed(objs, s.addr()));
        lemma_moved_inside(h, objs, g, s);
    }
}

/// The heap that is written is closed like the machine's.
#[verifier::rlimit(60)]
proof fn lemma_written_closed(
    h: HeapView,
    old: Seq<usize>,
    classes: Seq<Value>,
    specials: Seq<Value>,
    r: HeapView,
    cl: int,
    sp: int,
)
    requires
        h.wf(),
        walkable(h, old),
        closed(h, old),
        sites_known(h, old),
        all_inside(old, classes),
        all_inside(old.push(cl as usize), specials),
        0 <= cl <= usize::MAX,
        0 <= sp <= usize::MAX,
        r.layout() == h.layout(),
        forall|x: int|
            h.plausible(x) && h.tenured(x) && x < h.old.top() ==> #[trigger] r.read(x) == h.read(x),
        r.nslots(cl) == classes.len(),
        r.nslots(sp) == specials.len(),
        r.hdr(cl).class_field() == crate::treaty::CLASS_ARRAY,
        r.hdr(sp).class_field() == crate::treaty::CLASS_ARRAY,
        forall|k: int| 0 <= k < classes.len() ==> #[trigger] r.slot(cl, k) == classes[k],
        forall|k: int| 0 <= k < specials.len() ==> #[trigger] r.slot(sp, k) == specials[k],
    ensures
        closed(r, old.push(cl as usize).push(sp as usize)),
        sites_known(r, old.push(cl as usize).push(sp as usize)),
{
    let old1 = old.push(cl as usize);
    let more = old1.push(sp as usize);
    crate::graph::lemma_listed_push(old, cl as usize);
    crate::graph::lemma_listed_push(old1, sp as usize);
    assert forall|a: int, i: int|
        listed(more, a) && !r.hdr(a).byte_format() && 0 <= i < r.nslots(a) && (#[trigger] r.slot(
            a,
            i,
        )).tagged_ptr() implies listed(more, r.slot(a, i).addr()) by {
        if listed(old, a) {
            crate::reload::lemma_words_kept(h, r, old, a);
            assert(r.slot(a, i) == h.slot(a, i));
            assert(listed(old, h.slot(a, i).addr()));
        } else if a == cl {
            assert(r.slot(a, i) == classes[i]);
            assert(listed(old, classes[i].addr()));
        } else {
            assert(r.slot(a, i) == specials[i]);
            assert(listed(old1, specials[i].addr()));
        }
    }
    assert forall|k: int|
        0 <= k < more.len() && crate::symbols::has_code(r, (#[trigger] more[k]) as int) implies !r.hdr(
        more[k] as int,
    ).byte_format() && (sites_slot(r, more[k] as int).tagged_ptr() ==> listed(
        more,
        sites_slot(r, more[k] as int).addr(),
    )) by {
        let a = more[k] as int;
        if k < old.len() {
            assert(more[k] == old[k]);
            assert(listed(old, old[k] as int));
            crate::reload::lemma_words_kept(h, r, old, a);
            crate::graph::lemma_within(h, old, h.old.base, h.old.top(), a);
            assert(crate::symbols::has_code(h, old[k] as int));
            assert(r.slot(a, METHOD_SEND_SITES as int) == h.slot(a, METHOD_SEND_SITES as int));
            if sites_slot(h, a).tagged_ptr() {
                assert(listed(old, sites_slot(h, a).addr()));
            }
        }
    }
}

/// A machine whose objects are all in old space, and whose references lead to
/// them, is sound.
#[verifier::rlimit(60)]
proof fn lemma_settled_sound(w: VmView, t: Seq<usize>)
    requires
        ground(w.heap, t).sound(),
        settled_in(w.heap, t),
        w.specials.len() > SPECIAL_NIL,
        all_inside(t, w.specials),
        all_inside(t, w.class_table),
        all_inside(t, w.symbols),
        all_inside(t, w.sites),
        w.temp_roots.len() == 0,
        w.timer_sems.len() == 0,
        w.jit is None,
        listed(t, w.active.addr()),
        !w.heap.hdr(w.active.addr()).byte_format(),
    ensures
        w.sound(Seq::empty(), t, Set::full()),
        flagged(w.heap, t),
        spare(w.heap),
{
    reveal(settled_in);
    let b = w.objects(Seq::empty(), t, Set::full());
    assert(b == ground(w.heap, t));
    assert forall|i: int| 0 <= i < w.roots().len() implies b.known(#[trigger] w.roots()[i]) by {
        let r = w.roots();
        let x = w.specials.len() as int;
        let y = x + w.class_table.len();
        let z = y + w.sites.len();
        if i < x {
            assert(r[i] == w.specials[i]);
        } else if i < y {
            assert(r[i] == w.class_table[i - x]);
        } else if i < z {
            assert(r[i] == w.sites[i - y]);
        } else if i < z + w.symbols.len() {
            assert(r[i] == w.symbols[i - z]);
        } else {
            assert(r[i] == w.active);
        }
    }
    assert forall|o: int, i: int|
        listed(t, o) && !w.heap.hdr(o).byte_format() && 0 <= i < w.heap.nslots(o) && (
        #[trigger] w.heap.slot(o, i)).tagged_ptr() && w.heap.young(w.heap.slot(o, i).addr()) implies
        false by {
        assert(b.has(o));
        let s = w.heap.slot(o, i);
        assert(b.known(s)) by {
            reveal(Objects::sound);
        }
        crate::value::lemma_untag_bits(s);
        assert(b.lists(s.addr()));
        lemma_lies(b, s.addr());
    }
    assert(w.sound(Seq::empty(), t, Set::full())) by {
        reveal(VmView::sound);
    }
    assert forall|o: int| #[trigger] listed(t, o) implies !w.heap.is_remembered(o) by {
        let k = choose|k: int| 0 <= k < t.len() && #[trigger] t[k] == o;
        assert(!w.heap.is_remembered(t[k] as int));
    }
}

/// Lists of references inside the written space are, moved, inside the loaded
/// space.
proof fn lemma_list_inside(h: HeapView, objs: Seq<usize>, g: HeapView, list: Seq<Value>)
    requires
        h.wf(),
        g.wf(),
        tiles(h, objs, h.old.base, h.old.top()),
        g.old.alloc == h.old.alloc,
        all_inside(objs, list),
    ensures
        all_inside(
            rebased(objs, h.old.base, g.old.base),
            crate::reload::shifted_all(
                list,
                (g.old.base as u64).wrapping_sub(h.old.base as u64),
            ),
        ),
{
    let delta = (g.old.base as u64).wrapping_sub(h.old.base as u64);
    let moved = crate::reload::shifted_all(list, delta);
    assert forall|i: int| 0 <= i < moved.len() && (#[trigger] moved[i]).tagged_ptr() implies listed(
        rebased(objs, h.old.base, g.old.base),
        moved[i].addr(),
    ) by {
        assert(moved[i] == shifted(list[i], delta));
        lemma_moved_inside(h, objs, g, list[i]);
    }
}

/// A machine whose references all lead to objects of old space comes back
/// from its image sound, with its symbols and send sites, and runs; none of
/// its objects is remembered, and its collections succeed.
#[verifier::rlimit(60)]
#[verifier::spinoff_prover]
pub proof fn law_loaded_is_sound(v: VmView, old: Seq<usize>, config: VmConfig)
    requires
        v.heap.wf(),
        walkable(v.heap, old),
        v.specials.len() >= SPECIAL_OBJECTS_COUNT,
        v.class_table.len() <= MAX_CLASS_INDEX + 1,
        closed(v.heap, old),
        sites_known(v.heap, old),
        all_inside(old, v.specials),
        all_inside(old, v.class_table),
        listed(old, v.active.addr()),
        !v.heap.hdr(v.active.addr()).byte_format(),
        v.runs(),
        v.imaged().1 is Ok,
        crate::image::image_fits(config.heap, v.imaged().1->Ok_0.len() - IMG_HEADER_SIZE),
    ensures
        VmView::from_image(v.imaged().1->Ok_0, config) matches Ok(w) && exists|old1: Seq<usize>|
            #[trigger] w.sound(Seq::empty(), old1, Set::full()) && flagged(w.heap, old1) && w.runs()
                && spare(w.heap),
{
    let h = v.heap;
    let data = v.imaged().1->Ok_0;
    let (cl, sp) = lemma_image_objects(v, old);
    let r = v.imaged().0.heap;
    let more = old.push(cl as usize).push(sp as usize);
    lemma_image_head(r, sp, cl, v.active.addr());
    assert(data.len() - IMG_HEADER_SIZE == 8 * r.old.alloc);
    lemma_loaded(r, more, sp, cl, v.active.addr(), config.heap);
    crate::reload::law_image_round_trip(v, old, config);
    reveal(VmView::from_image);
    let w = VmView::from_image(data, config)->Ok_0;
    let g = w.heap;
    let delta = (g.old.base as u64).wrapping_sub(h.old.base as u64);
    let t = rebased(more, h.old.base, g.old.base);
    let specials = v.imaged().0.specials.take(SPECIAL_OBJECTS_COUNT as int);
    crate::graph::lemma_listed_push(old, cl as usize);
    crate::graph::lemma_listed_push(old.push(cl as usize), sp as usize);
    assert(all_inside(old.push(cl as usize), specials)) by {
        assert forall|i: int|
            0 <= i < specials.len() && (#[trigger] specials[i]).tagged_ptr() implies listed(
            old.push(cl as usize),
            specials[i].addr(),
        ) by {
            if i != SPECIAL_CLASS_LIST {
                assert(specials[i] == v.specials[i]);
                assert(listed(old, v.specials[i].addr()));
            }
        }
    }
    lemma_written_closed(h, old, v.class_table, specials, r, cl, sp);
    lemma_loaded_heap_sound(r, more, g, delta);
    assert(g.wf()) by {
        reveal(settled_in);
    }
    assert(all_inside(more, specials) && all_inside(more, v.class_table));
    lemma_list_inside(r, more, g, specials);
    lemma_list_inside(r, more, g, v.class_table);
    lemma_tables_inside(r, more, g, delta, w.symbols, w.symbol_names, w.sites);
    lemma_active_runs(v, w, old, more, r, delta);
    lemma_settled_sound(w, t);
}

/// The active process is there again, and runs.
#[verifier::rlimit(60)]
proof fn lemma_active_runs(
    v: VmView,
    w: VmView,
    old: Seq<usize>,
    more: Seq<usize>,
    r: HeapView,
    delta: u64,
)
    requires
        v.heap.wf(),
        w.heap.wf(),
        r.wf(),
        tiles(v.heap, old, v.heap.old.base, v.heap.old.top()),
        tiles(r, more, r.old.base, r.old.top()),
        forall|a: int| #[trigger] listed(old, a) ==> listed(more, a),
        r.layout() == v.heap.layout(),
        w.heap.old.alloc == r.old.alloc,
        delta == (w.heap.old.base as u64).wrapping_sub(v.heap.old.base as u64),
        closed(v.heap, old),
        listed(old, v.active.addr()),
        !v.heap.hdr(v.active.addr()).byte_format(),
        v.runs(),
        v.specials.len() >= SPECIAL_OBJECTS_COUNT,
        w.specials.len() > SPECIAL_NIL,
        w.nil() == shifted(v.nil(), delta),
        w.active == shifted(v.active, delta),
        ground(w.heap, rebased(more, r.old.base, w.heap.old.base)).sound(),
        reloaded(
            v.heap,
            v.active.addr(),
            w.heap,
            v.active.addr() + (w.heap.old.base - v.heap.old.base),
            delta,
        ),
    ensures
        w.runs(),
        listed(rebased(more, r.old.base, w.heap.old.base), w.active.addr()),
        !w.heap.hdr(w.active.addr()).byte_format(),
{
    let g = w.heap;
    let t = rebased(more, r.old.base, g.old.base);
    let b = ground(g, t);
    crate::graph::lemma_within(v.heap, old, v.heap.old.base, v.heap.old.top(), v.active.addr());
    crate::value::lemma_untag_bits(v.active);
    lemma_moved_inside(r, more, g, v.active);
    let a = v.active.addr();
    let i = PROCESS_STACK as int;
    if w.active.tagged_ptr() && w.active != w.nil() {
        assert(v.active != v.nil());
        let st = v.heap.slot(a, i);
        let sw = g.slot(w.active.addr(), i);
        assert(sw == shifted(st, delta));
        if st.tagged_ptr() {
            assert(listed(old, st.addr()));
            lemma_moved_inside(r, more, g, st);
            assert(b.lists(sw.addr()));
            lemma_lies(b, sw.addr());
        }
    }
}

} // verus!
