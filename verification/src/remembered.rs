//! The remembered set after a collection holds exactly the old objects that
//! point young, each once and flagged.

use crate::gc::{in_order, with_element};
use crate::graph::{alike, lemma_old_no_copy, lemma_within, listed, tiles, Copies, Objects};
use crate::heap::HeapView;
use crate::sliding::{among, compaction_keeps, law_compaction_keeps_graph, lemma_among_more};
use crate::survival::{
    heap_after, law_scavenge_keeps_graph, lemma_body_young, lemma_flipped, lemma_in_order,
    lemma_old_after, lemma_recheck, lemma_recheck_step, lemma_remembered_after,
    lemma_remembered_bits, old_after, same_body, scavenge_keeps,
};
use crate::vm::VmView;
use vstd::prelude::*;

verus! {

/// Old objects are in the remembered set exactly when they are flagged.
pub open spec fn flagged(h: HeapView, old: Seq<usize>) -> bool {
    forall|o: int| #[trigger] listed(old, o) ==> (listed(h.ssb, o) <==> h.is_remembered(o))
}

/// Old objects are in the remembered set exactly when they are flagged, and
/// that is exactly when they point young; none is in it twice.
pub open spec fn remembers(h: HeapView, old: Seq<usize>) -> bool {
    &&& flagged(h, old)
    &&& forall|o: int| #[trigger] listed(old, o) ==> (h.is_remembered(o) <==> h.points_young(o))
    &&& h.ssb.no_duplicates()
}

pub open spec fn increasing(s: Seq<usize>) -> bool {
    forall|i: int, j: int| 0 <= i < j < s.len() ==> s[i] < s[j]
}

proof fn lemma_increasing_more(s: Seq<usize>, x: usize)
    requires
        increasing(s),
    ensures
        increasing(with_element(s, x)),
        with_element(s, x).len() > 0,
        s.len() > 0 && x < s.last() ==> with_element(s, x).last() == s.last(),
        s.len() == 0 || x >= s.last() ==> with_element(s, x).last() == x,
    decreases s.len(),
{
    if s.len() == 0 || s.last() < x {
        assert(s.push(x).last() == x);
    } else if s.last() != x {
        let t = s.drop_last();
        assert(increasing(t));
        lemma_increasing_more(t, x);
        let u = with_element(t, x);
        if t.len() > 0 {
            assert(t.last() == s[s.len() - 2]);
            assert(s[s.len() - 2] < s[s.len() - 1]);
        }
        assert(u.last() < s.last());
        assert(u[u.len() - 1] == u.last());
    }
}

proof fn lemma_in_order_increasing(list: Seq<usize>, n: int)
    requires
        0 <= n <= list.len(),
    ensures
        increasing(in_order(list, n)),
    decreases n,
{
    if n > 0 {
        lemma_in_order_increasing(list, n - 1);
        lemma_increasing_more(in_order(list, n - 1), list[n - 1]);
    }
}

/// What rebuilding the remembered set from a list does, exactly.
pub open spec fn rebuilt(h: HeapView, r: HeapView, objs: Seq<usize>, list: Seq<usize>, i: int) -> bool {
    &&& forall|k: int|
        i <= k < list.len() ==> (r.is_remembered(#[trigger] list[k] as int) <==> h.points_young(
            list[k] as int,
        )) && (listed(r.ssb, list[k] as int) <==> h.points_young(list[k] as int))
    &&& forall|a: int| #[trigger]
        listed(objs, a) && !among(list, i, a) ==> r.read(a) == h.read(a)
    &&& forall|x: int| !among(list, i, x) ==> (#[trigger] listed(r.ssb, x) <==> listed(h.ssb, x))
    &&& r.ssb.no_duplicates()
}

/// One step of the rebuilding, exactly.
#[verifier::rlimit(60)]
proof fn lemma_step(h: HeapView, h1: HeapView, objs: Seq<usize>, p: int, top: int, o: int)
    requires
        h.wf(),
        tiles(h, objs, p, top),
        listed(objs, o),
        ({
            let g = h.hdr(o).gc_field();
            h1 == if h.points_young(o) {
                let h2 = if g & 2 == 0 {
                    h.write(o, h.hdr(o).regc(g | 2).0)
                } else {
                    h
                };
                HeapView { ssb: h2.ssb.push(o as usize), ..h2 }
            } else if g & 2 != 0 {
                h.write(o, h.hdr(o).regc(g & !2u64).0)
            } else {
                h
            }
        }),
    ensures
        h1.is_remembered(o) <==> h.points_young(o),
        h1.ssb == if h.points_young(o) {
            h.ssb.push(o as usize)
        } else {
            h.ssb
        },
{
    let hd = h.hdr(o);
    let g = hd.gc_field();
    lemma_within(h, objs, p, top, o);
    crate::heap::lemma_header_update(hd, 0, 0);
    lemma_remembered_bits(g);
    crate::heap::lemma_header_update(hd, 0, g | 2);
    crate::heap::lemma_header_update(hd, 0, g & !2u64);
    crate::graph::lemma_reads_after_write(h, o, hd.regc(g | 2).0);
    crate::graph::lemma_reads_after_write(h, o, hd.regc(g & !2u64).0);
    let w = h.write(o, hd.regc(g | 2).0);
    assert(forall|x: int| #[trigger]
        (HeapView { ssb: w.ssb.push(o as usize), ..w }).read(x) == w.read(x)) by {
        reveal(HeapView::read);
    }
    assert(forall|x: int| #[trigger]
        (HeapView { ssb: h.ssb.push(o as usize), ..h }).read(x) == h.read(x)) by {
        reveal(HeapView::read);
    }
}

#[verifier::rlimit(60)]
#[verifier::spinoff_prover]
proof fn lemma_rebuilt(h: HeapView, objs: Seq<usize>, p: int, top: int, list: Seq<usize>, i: int)
    requires
        h.wf(),
        tiles(h, objs, p, top),
        0 <= i <= list.len(),
        increasing(list),
        forall|k: int| 0 <= k < list.len() ==> listed(objs, (#[trigger] list[k]) as int),
        forall|k: int| i <= k < list.len() ==> !listed(h.ssb, (#[trigger] list[k]) as int),
        h.ssb.no_duplicates(),
    ensures
        rebuilt(h, h.recheck(list, i), objs, list, i),
    decreases list.len() - i,
{
    if i < list.len() {
        let o = list[i] as int;
        assert(listed(objs, list[i] as int));
        lemma_within(h, objs, p, top, o);
        let g = h.hdr(o).gc_field();
        let h1 = if h.points_young(o) {
            let h2 = if g & 2 == 0 {
                h.write(o, h.hdr(o).regc(g | 2).0)
            } else {
                h
            };
            HeapView { ssb: h2.ssb.push(o as usize), ..h2 }
        } else if g & 2 != 0 {
            h.write(o, h.hdr(o).regc(g & !2u64).0)
        } else {
            h
        };
        lemma_recheck_step(h, h1, objs, p, top, o);
        lemma_step(h, h1, objs, p, top, o);
        crate::graph::lemma_listed_push(h.ssb, o as usize);
        assert(h1.ssb.no_duplicates()) by {
            if h.points_young(o) {
                assert forall|x: int, y: int|
                    0 <= x < y < h1.ssb.len() implies h1.ssb[x] != h1.ssb[y] by {
                    if y == h.ssb.len() {
                        assert(h.ssb[x] != o as usize) by {
                            if h.ssb[x] == o as usize {
                                assert(listed(h.ssb, o));
                            }
                        }
                    }
                }
            }
        }
        lemma_rebuilt(h1, objs, p, top, list, i + 1);
        lemma_rebuilt_join(h, h1, h1.recheck(list, i + 1), objs, p, top, list, i);
    }
}

#[verifier::rlimit(60)]
proof fn lemma_rebuilt_join(
    h: HeapView,
    h1: HeapView,
    r: HeapView,
    objs: Seq<usize>,
    p: int,
    top: int,
    list: Seq<usize>,
    i: int,
)
    requires
        0 <= i < list.len(),
        increasing(list),
        tiles(h, objs, p, top),
        forall|k: int| 0 <= k < list.len() ==> listed(objs, (#[trigger] list[k]) as int),
        forall|k: int| i <= k < list.len() ==> !listed(h.ssb, (#[trigger] list[k]) as int),
        crate::survival::rechecked_one(h, h1, objs, list[i] as int),
        h1.is_remembered(list[i] as int) <==> h.points_young(list[i] as int),
        h1.ssb == if h.points_young(list[i] as int) {
            h.ssb.push(list[i])
        } else {
            h.ssb
        },
        rebuilt(h1, r, objs, list, i + 1),
    ensures
        rebuilt(h, r, objs, list, i),
{
    let o = list[i] as int;
    lemma_among_more(list, i);
    crate::graph::lemma_listed_push(h.ssb, list[i]);
    assert(!among(list, i + 1, o)) by {
        reveal(among);
    }
    assert(listed(objs, o));
    assert(r.read(o) == h1.read(o));
    assert forall|k: int| i <= k < list.len() implies (r.is_remembered(
        #[trigger] list[k] as int,
    ) <==> h.points_young(list[k] as int)) && (listed(r.ssb, list[k] as int) <==> h.points_young(
        list[k] as int,
    )) by {
        assert(!listed(h.ssb, list[k] as int));
        if k > i {
            assert(listed(objs, list[k] as int));
            lemma_body_young(h, h1, list[k] as int);
        }
    }
    assert forall|a: int| #[trigger] listed(objs, a) && !among(list, i, a) implies r.read(a)
        == h.read(a) by {
        assert(a != o);
        lemma_within(h, objs, p, top, a);
    }
    assert forall|x: int| !among(list, i, x) implies (#[trigger] listed(r.ssb, x) <==> listed(
        h.ssb,
        x,
    )) by {
        assert(x != o);
    }
}

/// After a scavenge an old object is in the remembered set exactly when it is
/// flagged, and that is exactly when it points young; none is in it twice.
pub proof fn law_scavenge_rebuilds_remembered(
    v: VmView,
    young: Seq<usize>,
    old: Seq<usize>,
    live: Set<int>,
)
    requires
        v.sound(young, old, live),
        flagged(v.heap, old),
    ensures
        v.scavenged() matches Ok(w) ==> exists|young1: Seq<usize>, old1: Seq<usize>| #[trigger]
            w.sound(young1, old1, Set::full()) && old.is_prefix_of(old1) && remembers(
                w.heap,
                old1,
            ),
{
    law_scavenge_keeps_graph(v, young, old, live);
    if let Ok(w) = v.scavenged() {
        let (m, y1, o1) = choose|m: Map<int, int>, y1: Seq<usize>, o1: Seq<usize>|
            scavenge_keeps(v, old, w, m, y1, o1);
        assert(w.sound(y1, o1, Set::full()) && remembers(w.heap, o1));
    }
}

/// After an old collection an old object is in the remembered set exactly
/// when it is flagged, and that is exactly when it points young; none is in
/// it twice.
pub proof fn law_compaction_rebuilds_remembered(
    v: VmView,
    young: Seq<usize>,
    old: Seq<usize>,
    live: Set<int>,
)
    requires
        v.sound(young, old, live),
    ensures
        v.compacted() matches Ok(w) ==> exists|
            young1: Seq<usize>,
            old1: Seq<usize>,
            live1: Set<int>,
        | #[trigger] w.sound(young1, old1, live1) && remembers(w.heap, old1),
{
    law_compaction_keeps_graph(v, young, old, live);
    if let Ok(w) = v.compacted() {
        let (m, y1, o1, l1) = choose|
            m: Map<int, int>,
            y1: Seq<usize>,
            o1: Seq<usize>,
            l1: Set<int>,
        | compaction_keeps(v, old, w, m, y1, o1, l1);
        assert(w.sound(y1, o1, l1) && remembers(w.heap, o1));
    }
}

#[verifier::rlimit(60)]
#[verifier::spinoff_prover]
pub(crate) proof fn lemma_remembers(b: Objects, v: VmView, sv: crate::gc::Survivors, c: Copies)
    requires
        b.sound(),
        b.heap == v.heap,
        flagged(b.heap, b.old),
        crate::survival::all_copied(b, v, sv, c),
        crate::survival::exchanged(b, sv, c),
        forall|o: int, i: int|
            listed(b.old, o) && !b.heap.hdr(o).byte_format() && 0 <= i < b.heap.nslots(o) && (
            #[trigger] b.heap.slot(o, i)).tagged_ptr() && b.heap.young(b.heap.slot(o, i).addr())
                ==> listed(b.heap.ssb, o) || v.running_stack() == Some(o),
    ensures
        remembers(heap_after(sv), old_after(b, sv.scav)),
{
    let s = sv.scav;
    let h = s.heap;
    let f = h.flipped();
    let r = heap_after(sv);
    let old = old_after(b, s);
    let n = sv.suspects.len() as int;
    let list = in_order(sv.suspects, n);
    assert(h.wf()) by {
        reveal(Copies::placed);
    }
    lemma_flipped(h);
    lemma_old_after(b, s, c);
    lemma_in_order(sv.suspects, n);
    lemma_in_order_increasing(sv.suspects, n);
    assert forall|k: int| 0 <= k < list.len() implies listed(old, (#[trigger] list[k]) as int) by {
        let o = list[k] as int;
        assert(listed(list, o));
        let i = choose|i: int| 0 <= i < sv.suspects.len() && #[trigger] sv.suspects[i] == o;
        assert(c.stands(b, sv.suspects[i] as int));
        if listed(c.spare, o) {
            assert(tiles(h, c.spare, h.to.base, h.to.top())) by {
                reveal(Copies::placed);
            }
            lemma_within(h, c.spare, h.to.base, h.to.top(), o);
        }
    }
    assert(tiles(f, old, h.old.base, h.old.top())) by {
        assert forall|k: int| 0 <= k < old.len() implies crate::graph::same_size(
            h,
            f,
            (#[trigger] old[k]) as int,
        ) by {
            assert(listed(old, old[k] as int));
            lemma_within(h, old, h.old.base, h.old.top(), old[k] as int);
        }
        crate::survival::lemma_tiles_carried(h, f, old, h.old.base, h.old.top());
    }
    lemma_recheck(f, old, h.old.base, h.old.top(), list, 0);
    lemma_rebuilt(f, old, h.old.base, h.old.top(), list, 0);
    assert forall|o: int| #[trigger] listed(old, o) implies (listed(r.ssb, o) <==> r.is_remembered(
        o,
    )) && (r.is_remembered(o) <==> r.points_young(o)) by {
        assert(same_body(f, r, o));
        lemma_body_young(f, r, o);
        if listed(sv.suspects, o) {
            assert(listed(list, o));
            let k = choose|k: int| 0 <= k < list.len() && #[trigger] list[k] == o;
            assert(r.is_remembered(list[k] as int) <==> f.points_young(list[k] as int));
        } else {
            assert(!among(list, 0, o)) by {
                reveal(among);
                if among(list, 0, o) {
                    assert(listed(list, o));
                }
            }
            assert(r.read(o) == f.read(o));
            lemma_within(h, old, h.old.base, h.old.top(), o);
            assert(listed(b.old, o));
            lemma_old_no_copy(b, s, c, o);
            assert(c.stands(b, o));
            assert(alike(b.heap, c.origin(o), h, o, c.open.contains(o))) by {
                reveal(Copies::matching);
            }
            assert(r.read(o) == b.heap.read(o));
            assert(!listed(b.heap.ssb, o));
            assert(!b.heap.is_remembered(o));
            assert(!listed(f.ssb, o));
            assert(!listed(r.ssb, o));
            if r.points_young(o) {
                let i = choose|i: int|
                    0 <= i < r.nslots(o) && (#[trigger] r.slot(o, i)).tagged_ptr() && r.young(
                        r.slot(o, i).addr(),
                    );
                lemma_remembered_after(b, v, sv, c, o, i);
            }
        }
    }
}

} // verus!
