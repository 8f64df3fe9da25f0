//! The tables of symbols and send sites that loading an image makes.

use crate::graph::{listed, tiles};
use crate::heap::HeapView;
use crate::image::{shifted, LoadView};
use crate::reload::{lemma_pass_other, lemma_settled};
use crate::treaty::{
    CLASS_COMPILEDBLOCK, CLASS_COMPILEDMETHOD, CLASS_SYMBOL, FMT_PTRS, METHOD_SEND_SITES,
};
use crate::value::Value;
use vstd::prelude::*;

verus! {

/// The object at `a` is a symbol.
pub open spec fn is_symbol(h: HeapView, a: int) -> bool {
    h.hdr(a).class_field() == CLASS_SYMBOL && h.bytes_ok(a)
}

/// The object at `a` is a method or a block with a place for send sites.
pub open spec fn has_code(h: HeapView, a: int) -> bool {
    (h.hdr(a).class_field() == CLASS_COMPILEDMETHOD || h.hdr(a).class_field()
        == CLASS_COMPILEDBLOCK) && h.shaped(a, METHOD_SEND_SITES + 1)
}

/// The send sites of the method or block at `a`.
pub open spec fn sites_slot(h: HeapView, a: int) -> Value {
    h.slot(a, METHOD_SEND_SITES as int)
}

/// The method or block at `a` has an array of send sites.
pub open spec fn has_sites(h: HeapView, a: int) -> bool {
    &&& has_code(h, a)
    &&& sites_slot(h, a).tagged_ptr()
    &&& h.hdr(sites_slot(h, a).addr()).format_field() == FMT_PTRS
}

/// Methods and blocks are not byte objects, and where their send sites are a
/// reference it leads to an object of the list.
pub open spec fn sites_known(h: HeapView, objs: Seq<usize>) -> bool {
    forall|k: int|
        0 <= k < objs.len() && has_code(h, (#[trigger] objs[k]) as int) ==> !h.hdr(
            objs[k] as int,
        ).byte_format() && (sites_slot(h, objs[k] as int).tagged_ptr() ==> listed(
            objs,
            sites_slot(h, objs[k] as int).addr(),
        ))
}

/// The indices from `i` on and before `n` of which something holds, in order.
pub open spec fn places(pred: spec_fn(int) -> bool, i: int, n: int) -> Seq<int>
    decreases n - i,
{
    if i >= n {
        Seq::empty()
    } else if pred(i) {
        seq![i] + places(pred, i + 1, n)
    } else {
        places(pred, i + 1, n)
    }
}

/// Which objects of a list are symbols.
pub open spec fn symbols_in(h: HeapView, objs: Seq<usize>) -> Seq<int> {
    places(|k: int| is_symbol(h, objs[k] as int), 0, objs.len() as int)
}

/// Which objects of a list have send sites.
pub open spec fn sites_in(h: HeapView, objs: Seq<usize>) -> Seq<int> {
    places(|k: int| has_sites(h, objs[k] as int), 0, objs.len() as int)
}

pub(crate) proof fn lemma_places_same(
    p: spec_fn(int) -> bool,
    q: spec_fn(int) -> bool,
    i: int,
    n: int,
)
    requires
        forall|k: int| i <= k < n ==> #[trigger] p(k) == q(k),
    ensures
        places(p, i, n) == places(q, i, n),
    decreases n - i,
{
    if i < n {
        assert(p(i) == q(i));
        lemma_places_same(p, q, i + 1, n);
    }
}

/// Indices of which it does not hold at the end add nothing.
pub(crate) proof fn lemma_places_cut(p: spec_fn(int) -> bool, i: int, n: int, m: int)
    requires
        n <= m,
        forall|k: int| n <= k < m ==> !#[trigger] p(k),
    ensures
        places(p, i, m) == places(p, i, n),
    decreases m - i,
{
    if i < m {
        assert(i >= n ==> !p(i));
        lemma_places_cut(p, i + 1, n, m);
        if i >= n {
            assert(places(p, i + 1, n) =~= Seq::empty());
        }
    }
}

/// Places lie where they were sought, and it holds of them.
#[verifier::rlimit(60)]
pub(crate) proof fn lemma_places(p: spec_fn(int) -> bool, i: int, n: int)
    ensures
        forall|j: int|
            0 <= j < places(p, i, n).len() ==> i <= #[trigger] places(p, i, n)[j] < n && p(
                places(p, i, n)[j],
            ),
    decreases n - i,
{
    if i < n {
        lemma_places(p, i + 1, n);
        let rest = places(p, i + 1, n);
        assert forall|j: int| 0 <= j < places(p, i, n).len() implies i <= #[trigger] places(
            p,
            i,
            n,
        )[j] < n && p(places(p, i, n)[j]) by {
            if p(i) {
                if j > 0 {
                    assert(places(p, i, n)[j] == rest[j - 1]);
                }
            } else {
                assert(places(p, i, n)[j] == rest[j]);
            }
        }
    }
}

/// Byte objects with the same words have the same bytes.
pub(crate) proof fn lemma_same_bytes(h: HeapView, a: int, r: HeapView, b: int)
    requires
        r.nslots(b) == h.nslots(a),
        r.hdr(b).format_field() == h.hdr(a).format_field(),
        h.bytes_ok(a),
        forall|i: int| 0 <= i < h.nslots(a) ==> #[trigger] r.slot(b, i) == h.slot(a, i),
    ensures
        r.bytes(b) == h.bytes(a),
{
    assert forall|i: int| 0 <= i < h.byte_len(a) implies #[trigger] r.byte(b, i) == h.byte(a, i) by {
        assert(h.hdr(a).format_field() >= 8);
        assert(0 <= i / 8 < h.nslots(a));
        assert(r.slot(b, i / 8) == h.slot(a, i / 8));
    }
    assert(r.bytes(b) =~= h.bytes(a));
}

/// The send sites of the object at `a` as the pass over an image leaves them.
pub open spec fn moved_sites(h: HeapView, a: int, delta: u64) -> Value {
    if h.hdr(a).byte_format() {
        sites_slot(h, a)
    } else {
        shifted(sites_slot(h, a), delta)
    }
}

/// The pass finds send sites in the object at `a`.
pub open spec fn finds_sites(h: HeapView, a: int, delta: u64) -> bool {
    &&& has_code(h, a)
    &&& moved_sites(h, a, delta).tagged_ptr()
    &&& h.hdr(moved_sites(h, a, delta).addr()).format_field() == FMT_PTRS
}

/// The send sites of objects not yet passed lead to objects once moved.
pub open spec fn sites_land(h: HeapView, objs: Seq<usize>, i: int, delta: u64) -> bool {
    forall|k: int|
        i <= k < objs.len() && has_code(h, (#[trigger] objs[k]) as int) && moved_sites(
            h,
            objs[k] as int,
            delta,
        ).tagged_ptr() ==> listed(objs, moved_sites(h, objs[k] as int, delta).addr())
}

/// The symbols at some places of a list.
pub open spec fn values_at(objs: Seq<usize>, at: Seq<int>) -> Seq<Value> {
    Seq::new(at.len(), |j: int| Value(objs[at[j]] as u64))
}

/// The bytes of the objects at some places of a list.
pub open spec fn bytes_at(h: HeapView, objs: Seq<usize>, at: Seq<int>) -> Seq<Seq<u8>> {
    Seq::new(at.len(), |j: int| h.bytes(objs[at[j]] as int))
}

/// The moved send sites of the objects at some places of a list.
pub open spec fn sites_at(h: HeapView, objs: Seq<usize>, at: Seq<int>, delta: u64) -> Seq<Value> {
    Seq::new(at.len(), |j: int| moved_sites(h, objs[at[j]] as int, delta))
}

/// What the pass over `objs[i..]` adds to the tables.
pub open spec fn tabled(l: LoadView, r: LoadView, objs: Seq<usize>, i: int, delta: u64) -> bool {
    let n = objs.len() as int;
    let syms = places(|k: int| is_symbol(l.heap, objs[k] as int), i, n);
    let sites = places(|k: int| finds_sites(l.heap, objs[k] as int, delta), i, n);
    &&& r.symbols == l.symbols + values_at(objs, syms)
    &&& r.symbol_names == l.symbol_names + bytes_at(l.heap, objs, syms)
    &&& sites_land(l.heap, objs, i, delta) ==> r.sites == l.sites + sites_at(
        l.heap,
        objs,
        sites,
        delta,
    )
}

/// The object at `objs[k]` is to the tables what it was before the pass over
/// another.
proof fn lemma_still(
    h: HeapView,
    h1: HeapView,
    objs: Seq<usize>,
    p: int,
    top: int,
    i: int,
    k: int,
    delta: u64,
)
    requires
        h.wf(),
        tiles(h, objs, p, top),
        0 <= i < objs.len(),
        0 <= k < objs.len(),
        k != i,
        crate::reload::settled_ok(h, h1, objs[i] as int, delta),
    ensures
        is_symbol(h1, objs[k] as int) == is_symbol(h, objs[k] as int),
        is_symbol(h, objs[k] as int) ==> h1.bytes(objs[k] as int) == h.bytes(objs[k] as int),
        has_code(h1, objs[k] as int) == has_code(h, objs[k] as int),
        has_code(h, objs[k] as int) ==> moved_sites(h1, objs[k] as int, delta) == moved_sites(
            h,
            objs[k] as int,
            delta,
        ),
{
    let a = objs[k] as int;
    lemma_pass_other(h, h1, objs, p, top, i, k, delta);
    assert(h.whole(objs[k] as int));
    assert(h1.nslots(a) == h.nslots(a));
    if is_symbol(h, a) {
        lemma_same_bytes(h, a, h1, a);
    }
    if has_code(h, a) {
        assert(h1.slot(a, METHOD_SEND_SITES as int) == h.slot(a, METHOD_SEND_SITES as int));
    }
}

#[verifier::rlimit(60)]
#[verifier::spinoff_prover]
pub(crate) proof fn lemma_tabled(
    l: LoadView,
    objs: Seq<usize>,
    p: int,
    top: int,
    i: int,
    delta: u64,
)
    requires
        l.heap.wf(),
        tiles(l.heap, objs, p, top),
        0 <= i <= objs.len(),
    ensures
        tabled(l, l.visited_all(objs, i, delta), objs, i, delta),
    decreases objs.len() - i,
{
    let n = objs.len() as int;
    let h = l.heap;
    let isym = |k: int| is_symbol(h, objs[k] as int);
    let isit = |k: int| finds_sites(h, objs[k] as int, delta);
    if i < n {
        let o = objs[i] as int;
        assert(h.whole(objs[i] as int));
        lemma_settled(h, o, delta);
        let l1 = l.visited(o, delta);
        let h1 = l1.heap;
        assert(h1 == h.settled(o, delta));
        assert forall|k: int| 0 <= k < n implies crate::graph::same_size(
            h,
            h1,
            (#[trigger] objs[k]) as int,
        ) && crate::graph::same_fields(h.hdr(objs[k] as int), h1.hdr(objs[k] as int)) by {
            lemma_pass_other(h, h1, objs, p, top, i, k, delta);
        }
        crate::graph::lemma_tiles_kept(h, h1, objs, p, top);
        lemma_tabled(l1, objs, p, top, i + 1, delta);
        let r = l1.visited_all(objs, i + 1, delta);
        let isym1 = |k: int| is_symbol(h1, objs[k] as int);
        let isit1 = |k: int| finds_sites(h1, objs[k] as int, delta);
        assert forall|k: int| i + 1 <= k < n implies #[trigger] isym1(k) == isym(k) by {
            lemma_still(h, h1, objs, p, top, i, k, delta);
        }
        lemma_places_same(isym1, isym, i + 1, n);
        let syms = places(isym, i + 1, n);
        lemma_places(isym, i + 1, n);
        assert(bytes_at(h1, objs, syms) =~= bytes_at(h, objs, syms)) by {
            assert forall|j: int| 0 <= j < syms.len() implies h1.bytes(
                objs[#[trigger] syms[j]] as int,
            ) == h.bytes(objs[syms[j]] as int) by {
                assert(isym(syms[j]));
                lemma_still(h, h1, objs, p, top, i, syms[j], delta);
            }
        }
        assert(h1.nslots(o) == h.nslots(o));
        assert(is_symbol(h1, o) == is_symbol(h, o));
        if is_symbol(h, o) {
            lemma_same_bytes(h, o, h1, o);
        }
        assert(has_code(h1, o) == has_code(h, o));
        if has_code(h, o) {
            assert(h1.slot(o, METHOD_SEND_SITES as int) == moved_sites(h, o, delta));
        }
        let all = places(isym, i, n);
        if isym(i) {
            assert(values_at(objs, all) =~= seq![Value(o as u64)] + values_at(objs, syms));
            assert(bytes_at(h, objs, all) =~= seq![h.bytes(o)] + bytes_at(h, objs, syms));
            assert(r.symbols =~= l.symbols + values_at(objs, all));
            assert(r.symbol_names =~= l.symbol_names + bytes_at(h, objs, all));
        }
        if sites_land(h, objs, i, delta) {
            assert forall|k: int|
                i + 1 <= k < n && has_code(h1, (#[trigger] objs[k]) as int) && moved_sites(
                    h1,
                    objs[k] as int,
                    delta,
                ).tagged_ptr() implies listed(objs, moved_sites(h1, objs[k] as int, delta).addr())
                by {
                lemma_still(h, h1, objs, p, top, i, k, delta);
            }
            assert forall|k: int| i + 1 <= k < n implies #[trigger] isit1(k) == isit(k) by {
                lemma_still(h, h1, objs, p, top, i, k, delta);
                let a = objs[k] as int;
                if has_code(h, objs[k] as int) && moved_sites(h, a, delta).tagged_ptr() {
                    let t = moved_sites(h, a, delta).addr();
                    assert(listed(objs, t));
                    let m = choose|m: int| 0 <= m < objs.len() && #[trigger] objs[m] == t;
                    assert(crate::graph::same_fields(h.hdr(objs[m] as int), h1.hdr(objs[m] as int)));
                }
            }
            lemma_places_same(isit1, isit, i + 1, n);
            let sites = places(isit, i + 1, n);
            lemma_places(isit, i + 1, n);
            assert(sites_at(h1, objs, sites, delta) =~= sites_at(h, objs, sites, delta)) by {
                assert forall|j: int| 0 <= j < sites.len() implies moved_sites(
                    h1,
                    objs[#[trigger] sites[j]] as int,
                    delta,
                ) == moved_sites(h, objs[sites[j]] as int, delta) by {
                    assert(isit(sites[j]));
                    lemma_still(h, h1, objs, p, top, i, sites[j], delta);
                }
            }
            if has_code(h, objs[i] as int) && moved_sites(h, o, delta).tagged_ptr() {
                let t = moved_sites(h, o, delta).addr();
                assert(listed(objs, t));
                let m = choose|m: int| 0 <= m < objs.len() && #[trigger] objs[m] == t;
                assert(crate::graph::same_fields(h.hdr(objs[m] as int), h1.hdr(objs[m] as int)));
                assert(h1.whole(objs[m] as int));
            }
            let every = places(isit, i, n);
            if isit(i) {
                assert(sites_at(h, objs, every, delta) =~= seq![moved_sites(h, o, delta)]
                    + sites_at(h, objs, sites, delta));
                assert(r.sites =~= l.sites + sites_at(h, objs, every, delta));
            }
        }
    } else {
        assert(values_at(objs, places(isym, i, n)) =~= Seq::empty());
        assert(bytes_at(h, objs, places(isym, i, n)) =~= Seq::empty());
        assert(sites_at(h, objs, places(isit, i, n), delta) =~= Seq::empty());
        assert(l.symbols + Seq::<Value>::empty() =~= l.symbols);
        assert(l.symbol_names + Seq::<Seq<u8>>::empty() =~= l.symbol_names);
        assert(l.sites + Seq::<Value>::empty() =~= l.sites);
    }
}

/// The objects at some places of a list, moved by a distance.
pub open spec fn moved_values(objs: Seq<usize>, at: Seq<int>, d: int) -> Seq<Value> {
    Seq::new(at.len(), |j: int| Value((objs[at[j]] + d) as u64))
}

/// The send sites of the objects at some places of a list, moved.
pub open spec fn moved_sites_at(h: HeapView, objs: Seq<usize>, at: Seq<int>, delta: u64) -> Seq<
    Value,
> {
    Seq::new(at.len(), |j: int| shifted(sites_slot(h, objs[at[j]] as int), delta))
}

/// Tables that hold the symbols of a list of objects, their names, and the
/// send sites of its methods, each moved.
#[verifier::opaque]
pub open spec fn tables_of(
    h: HeapView,
    objs: Seq<usize>,
    d: int,
    delta: u64,
    symbols: Seq<Value>,
    names: Seq<Seq<u8>>,
    sites: Seq<Value>,
) -> bool {
    &&& symbols == moved_values(objs, symbols_in(h, objs), d)
    &&& names == bytes_at(h, objs, symbols_in(h, objs))
    &&& sites_known(h, objs) ==> sites == moved_sites_at(h, objs, sites_in(h, objs), delta)
}

/// The tables of a heap whose objects stand word for word elsewhere.
#[verifier::rlimit(60)]
#[verifier::spinoff_prover]
pub(crate) proof fn lemma_tables_moved(
    h: HeapView,
    objs: Seq<usize>,
    l: LoadView,
    r: LoadView,
    t: Seq<usize>,
)
    requires
        h.wf(),
        l.heap.wf(),
        tiles(h, objs, h.old.base, h.old.top()),
        l.heap.old.alloc == h.old.alloc,
        l.symbols == Seq::<Value>::empty(),
        l.symbol_names == Seq::<Seq<u8>>::empty(),
        l.sites == Seq::<Value>::empty(),
        t.len() == objs.len(),
        forall|k: int|
            0 <= k < objs.len() ==> t[k] == (#[trigger] objs[k]) + (l.heap.old.base - h.old.base)
                && crate::reload::alike_at(
                h,
                l.heap,
                objs[k] as int,
                l.heap.old.base - h.old.base,
            ),
        tabled(
            l,
            r,
            t,
            0,
            (l.heap.old.base as u64).wrapping_sub(h.old.base as u64),
        ),
    ensures
        tables_of(
            h,
            objs,
            l.heap.old.base - h.old.base,
            (l.heap.old.base as u64).wrapping_sub(h.old.base as u64),
            r.symbols,
            r.symbol_names,
            r.sites,
        ),
{
    reveal(tables_of);
    let n = objs.len() as int;
    let g = l.heap;
    let d = g.old.base - h.old.base;
    let delta = (g.old.base as u64).wrapping_sub(h.old.base as u64);
    let p = |k: int| is_symbol(h, objs[k] as int);
    let q = |k: int| is_symbol(g, t[k] as int);
    assert forall|k: int| 0 <= k < n implies #[trigger] q(k) == p(k) by {
        assert(crate::reload::alike_at(h, g, objs[k] as int, d));
        assert(h.whole(objs[k] as int));
    }
    lemma_places_same(q, p, 0, n);
    let syms = places(p, 0, n);
    lemma_places(p, 0, n);
    assert(symbols_in(h, objs) == syms);
    assert(r.symbols =~= moved_values(objs, syms, d)) by {
        assert(r.symbols =~= values_at(t, syms));
        assert forall|j: int| 0 <= j < syms.len() implies t[#[trigger] syms[j]] == objs[syms[j]] + d
            by {
            assert(0 <= syms[j] < n);
        }
    }
    assert(r.symbol_names =~= bytes_at(h, objs, syms)) by {
        assert(r.symbol_names =~= bytes_at(g, t, syms));
        assert forall|j: int| 0 <= j < syms.len() implies g.bytes(t[#[trigger] syms[j]] as int)
            == h.bytes(objs[syms[j]] as int) by {
            let k = syms[j];
            assert(p(k));
            assert(crate::reload::alike_at(h, g, objs[k] as int, d));
            lemma_same_bytes(h, objs[k] as int, g, t[k] as int);
        }
    }
    if sites_known(h, objs) {
        let u = |k: int| has_sites(h, objs[k] as int);
        let w = |k: int| finds_sites(g, t[k] as int, delta);
        assert forall|k: int| 0 <= k < n implies #[trigger] w(k) == u(k) && (has_code(
            g,
            (#[trigger] t[k]) as int,
        ) && moved_sites(g, t[k] as int, delta).tagged_ptr() ==> listed(
            t,
            moved_sites(g, t[k] as int, delta).addr(),
        )) && (u(k) ==> moved_sites(g, t[k] as int, delta) == shifted(
            sites_slot(h, objs[k] as int),
            delta,
        )) by {
            let a = objs[k] as int;
            assert(crate::reload::alike_at(h, g, objs[k] as int, d));
            assert(h.whole(objs[k] as int));
            assert(has_code(g, t[k] as int) == has_code(h, a));
            if has_code(h, objs[k] as int) {
                let s = sites_slot(h, a);
                assert(sites_slot(g, t[k] as int) == s);
                if s.tagged_ptr() {
                    assert(listed(objs, s.addr()));
                    let m = choose|m: int| 0 <= m < objs.len() && #[trigger] objs[m] == s.addr();
                    crate::graph::lemma_within(h, objs, h.old.base, h.old.top(), s.addr());
                    assert(crate::reload::alike_at(h, g, objs[m] as int, d));
                    crate::value::lemma_untag_bits(s);
                    crate::reload::lemma_shift_addr(s.addr(), h.old.base, g.old.base);
                    assert(s == Value(s.addr() as u64));
                    crate::value::lemma_untag_bits(shifted(s, delta));
                    assert(shifted(s, delta).addr() == t[m]);
                    assert(listed(t, t[m] as int));
                }
            }
        }
        assert(sites_land(g, t, 0, delta)) by {
            assert forall|k: int|
                0 <= k < t.len() && has_code(g, (#[trigger] t[k]) as int) && moved_sites(
                    g,
                    t[k] as int,
                    delta,
                ).tagged_ptr() implies listed(t, moved_sites(g, t[k] as int, delta).addr()) by {
                assert(w(k) == u(k));
            }
        }
        lemma_places_same(w, u, 0, n);
        let sites = places(u, 0, n);
        lemma_places(u, 0, n);
        assert(sites_in(h, objs) == sites);
        assert(r.sites =~= moved_sites_at(h, objs, sites, delta)) by {
            assert(r.sites =~= sites_at(g, t, sites, delta));
            assert forall|j: int| 0 <= j < sites.len() implies moved_sites(
                g,
                t[#[trigger] sites[j]] as int,
                delta,
            ) == shifted(sites_slot(h, objs[sites[j]] as int), delta) by {
                assert(u(sites[j]));
                assert(w(sites[j]) == u(sites[j]));
            }
        }
    }
}

/// The tables of a list of objects are those of a heap where these stand
/// unchanged, with others after them that are neither symbols nor code.
#[verifier::rlimit(60)]
pub(crate) proof fn lemma_tables_same(
    h: HeapView,
    objs: Seq<usize>,
    r: HeapView,
    more: Seq<usize>,
    d: int,
    delta: u64,
    symbols: Seq<Value>,
    names: Seq<Seq<u8>>,
    sites: Seq<Value>,
)
    requires
        h.wf(),
        tiles(h, objs, h.old.base, h.old.top()),
        r.layout() == h.layout(),
        objs.len() <= more.len(),
        forall|k: int| 0 <= k < objs.len() ==> more[k] == #[trigger] objs[k],
        forall|k: int|
            objs.len() <= k < more.len() ==> !is_symbol(r, (#[trigger] more[k]) as int)
                && !has_code(r, more[k] as int),
        forall|x: int|
            h.plausible(x) && h.tenured(x) && x < h.old.top() ==> #[trigger] r.read(x) == h.read(x),
        tables_of(r, more, d, delta, symbols, names, sites),
    ensures
        tables_of(h, objs, d, delta, symbols, names, sites),
{
    reveal(tables_of);
    let n = objs.len() as int;
    let m = more.len() as int;
    assert forall|k: int| 0 <= k < n implies is_symbol(r, (#[trigger] objs[k]) as int) == is_symbol(
        h,
        objs[k] as int,
    ) && has_code(r, objs[k] as int) == has_code(h, objs[k] as int) && (is_symbol(
        h,
        objs[k] as int,
    ) ==> r.bytes(objs[k] as int) == h.bytes(objs[k] as int)) && (has_code(h, objs[k] as int)
        ==> sites_slot(r, objs[k] as int) == sites_slot(h, objs[k] as int)) && r.hdr(
        objs[k] as int,
    ) == h.hdr(objs[k] as int) by {
        let a = objs[k] as int;
        assert(listed(objs, objs[k] as int));
        crate::reload::lemma_words_kept(h, r, objs, a);
        crate::graph::lemma_within(h, objs, h.old.base, h.old.top(), a);
        if is_symbol(h, a) {
            lemma_same_bytes(h, a, r, a);
        }
        if has_code(h, a) {
            assert(r.slot(a, METHOD_SEND_SITES as int) == h.slot(a, METHOD_SEND_SITES as int));
        }
    }
    let p = |k: int| is_symbol(h, objs[k] as int);
    let q = |k: int| is_symbol(r, more[k] as int);
    lemma_places_cut(q, 0, n, m);
    assert forall|k: int| 0 <= k < n implies #[trigger] q(k) == p(k) by {
        assert(more[k] == objs[k]);
    }
    lemma_places_same(q, p, 0, n);
    let syms = places(p, 0, n);
    lemma_places(p, 0, n);
    assert(symbols_in(r, more) == syms && symbols_in(h, objs) == syms);
    assert(moved_values(more, syms, d) =~= moved_values(objs, syms, d)) by {
        assert forall|j: int| 0 <= j < syms.len() implies more[#[trigger] syms[j]] == objs[syms[j]]
            by {
            assert(0 <= syms[j] < n);
        }
    }
    assert(bytes_at(r, more, syms) =~= bytes_at(h, objs, syms)) by {
        assert forall|j: int| 0 <= j < syms.len() implies r.bytes(more[#[trigger] syms[j]] as int)
            == h.bytes(objs[syms[j]] as int) by {
            assert(p(syms[j]));
            assert(more[syms[j]] == objs[syms[j]]);
        }
    }
    if sites_known(h, objs) {
        let u = |k: int| has_sites(h, objs[k] as int);
        let w = |k: int| has_sites(r, more[k] as int);
        assert forall|k: int| 0 <= k < n implies #[trigger] w(k) == u(k) by {
            assert(more[k] == objs[k]);
            if has_code(h, objs[k] as int) && sites_slot(h, objs[k] as int).tagged_ptr() {
                let t = sites_slot(h, objs[k] as int).addr();
                assert(listed(objs, t));
                let x = choose|x: int| 0 <= x < objs.len() && #[trigger] objs[x] == t;
                assert(r.hdr(objs[x] as int) == h.hdr(objs[x] as int));
            }
        }
        assert(sites_known(r, more)) by {
            assert forall|k: int|
                0 <= k < more.len() && has_code(r, (#[trigger] more[k]) as int) implies !r.hdr(
                more[k] as int,
            ).byte_format() && (sites_slot(r, more[k] as int).tagged_ptr() ==> listed(
                more,
                sites_slot(r, more[k] as int).addr(),
            )) by {
                assert(k < n);
                assert(more[k] == objs[k]);
                if sites_slot(h, objs[k] as int).tagged_ptr() {
                    let t = sites_slot(h, objs[k] as int).addr();
                    assert(listed(objs, t));
                    let x = choose|x: int| 0 <= x < objs.len() && #[trigger] objs[x] == t;
                    assert(more[x] == objs[x]);
                    assert(listed(more, t));
                }
            }
        }
        lemma_places_cut(w, 0, n, m);
        lemma_places_same(w, u, 0, n);
        let at = places(u, 0, n);
        lemma_places(u, 0, n);
        assert(sites_in(r, more) == at && sites_in(h, objs) == at);
        assert(moved_sites_at(r, more, at, delta) =~= moved_sites_at(h, objs, at, delta)) by {
            assert forall|j: int| 0 <= j < at.len() implies sites_slot(
                r,
                more[#[trigger] at[j]] as int,
            ) == sites_slot(h, objs[at[j]] as int) by {
                assert(u(at[j]));
                assert(more[at[j]] == objs[at[j]]);
            }
        }
    }
}

} // verus!
