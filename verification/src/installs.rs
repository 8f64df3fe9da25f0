//! A method that is installed is the one that sends find, and the other
//! methods of its class stay.

use crate::graph::{fin, lemma_tiles_kept, lemma_tiles_more, listed, same_size};
use crate::heap::HeapView;
use crate::objects::law_alloc_old;
use crate::queues::{laid_out, lemma_apart_all, lemma_slot_stored, lemma_stored, roomy, stored};
use crate::treaty::{
    BEHAVIOR_METHOD_DICTIONARY, CLASS_ARRAY, FMT_PTRS, MDICT_KEYS, MDICT_NUM_VM_SLOTS,
    MDICT_VALUES, METHOD_CLASS, METHOD_SELECTOR, METHOD_SEND_SITES, SITE_CACHE_CLASS,
    SITE_CACHE_METHOD, SITE_STRIDE,
};
use crate::value::Value;
use crate::vm::VmView;
use vstd::prelude::*;

verus! {

// ---------------------------------------------------------------------------
// Changes to some objects
// ---------------------------------------------------------------------------
/// There is an object at `a`.
pub open spec fn present(young: Seq<usize>, old: Seq<usize>, a: int) -> bool {
    listed(young, a) || listed(old, a)
}

/// The objects of a heap are as before, but for the slots of those touched.
#[verifier::opaque]
pub open spec fn beside(
    h: HeapView,
    r: HeapView,
    young: Seq<usize>,
    old: Seq<usize>,
    touched: Set<int>,
) -> bool {
    &&& laid_out(r, young, old)
    &&& r.layout() == h.layout()
    &&& forall|a: int| #[trigger]
        present(young, old, a) ==> r.nslots(a) == h.nslots(a) && r.whole(a)
    &&& forall|a: int, j: int|
        present(young, old, a) && !touched.contains(a) && 0 <= j < h.nslots(a) ==> #[trigger] r.slot(
            a,
            j,
        ) == h.slot(a, j)
}

/// The object at `a` has the same slots in both heaps.
pub open spec fn same_slots(h: HeapView, r: HeapView, a: int) -> bool {
    &&& r.nslots(a) == h.nslots(a)
    &&& r.whole(a)
    &&& forall|j: int| 0 <= j < h.nslots(a) ==> #[trigger] r.slot(a, j) == h.slot(a, j)
}

proof fn lemma_beside(
    h: HeapView,
    r: HeapView,
    young: Seq<usize>,
    old: Seq<usize>,
    touched: Set<int>,
    a: int,
)
    requires
        beside(h, r, young, old, touched),
        present(young, old, a),
    ensures
        laid_out(r, young, old),
        r.nslots(a) == h.nslots(a),
        r.whole(a),
        !touched.contains(a) ==> same_slots(h, r, a),
{
    reveal(beside);
}

proof fn lemma_beside_self(h: HeapView, young: Seq<usize>, old: Seq<usize>, touched: Set<int>)
    requires
        laid_out(h, young, old),
    ensures
        beside(h, h, young, old, touched),
{
    reveal(beside);
    assert forall|a: int| #[trigger] present(young, old, a) implies h.whole(a) by {
        lemma_apart_all(h, young, old, a, a);
    }
}

proof fn lemma_beside_on(
    h: HeapView,
    h1: HeapView,
    r: HeapView,
    young: Seq<usize>,
    old: Seq<usize>,
    touched: Set<int>,
)
    requires
        beside(h, h1, young, old, touched),
        beside(h1, r, young, old, touched),
    ensures
        beside(h, r, young, old, touched),
{
    reveal(beside);
    assert forall|a: int, j: int|
        present(young, old, a) && !touched.contains(a) && 0 <= j < h.nslots(a) implies #[trigger] r.slot(
        a,
        j,
    ) == h.slot(a, j) by {
        assert(h1.nslots(a) == h.nslots(a));
        assert(h1.slot(a, j) == h.slot(a, j));
    }
}

/// A store touches one object, and of it one slot.
proof fn lemma_store(
    h: HeapView,
    young: Seq<usize>,
    old: Seq<usize>,
    o: int,
    i: int,
    v: Value,
    touched: Set<int>,
)
    requires
        laid_out(h, young, old),
        present(young, old, o),
        0 <= i < h.nslots(o),
        touched.contains(o),
    ensures
        beside(h, h.store(o, i, v), young, old, touched),
        h.store(o, i, v).slot(o, i) == v,
        forall|j: int|
            0 <= j < h.nslots(o) && j != i ==> #[trigger] h.store(o, i, v).slot(o, j) == h.slot(
                o,
                j,
            ),
{
    assert(roomy(h, young, old, o, i));
    lemma_stored(h, young, old, o, i, v);
    lemma_stored_beside(h, h.store(o, i, v), young, old, o, i, v, touched);
}

/// So does a store without the barrier.
proof fn lemma_set(
    h: HeapView,
    young: Seq<usize>,
    old: Seq<usize>,
    o: int,
    i: int,
    v: Value,
    touched: Set<int>,
)
    requires
        laid_out(h, young, old),
        present(young, old, o),
        0 <= i < h.nslots(o),
        touched.contains(o),
    ensures
        beside(h, h.set_slot(o, i, v), young, old, touched),
{
    assert(roomy(h, young, old, o, i));
    lemma_slot_stored(h, young, old, o, i, v);
    lemma_stored_beside(h, h.set_slot(o, i, v), young, old, o, i, v, touched);
}

proof fn lemma_stored_beside(
    h: HeapView,
    r: HeapView,
    young: Seq<usize>,
    old: Seq<usize>,
    o: int,
    i: int,
    v: Value,
    touched: Set<int>,
)
    requires
        stored(h, r, young, old, o, i, v),
        present(young, old, o),
        touched.contains(o),
    ensures
        beside(h, r, young, old, touched),
        forall|j: int|
            0 <= j < h.nslots(o) && j != i ==> #[trigger] r.slot(o, j) == h.slot(o, j),
{
    reveal(beside);
    assert forall|a: int| #[trigger] present(young, old, a) implies r.nslots(a) == h.nslots(a)
        && r.whole(a) by {
    }
    assert forall|a: int, j: int|
        present(young, old, a) && !touched.contains(a) && 0 <= j < h.nslots(a) implies #[trigger] r.slot(
        a,
        j,
    ) == h.slot(a, j) by {
        assert(roomy(h, young, old, a, j));
    }
    assert forall|j: int| 0 <= j < h.nslots(o) && j != i implies #[trigger] r.slot(o, j) == h.slot(
        o,
        j,
    ) by {
        assert(roomy(h, young, old, o, j));
    }
}

// ---------------------------------------------------------------------------
// Clearing the caches
// ---------------------------------------------------------------------------
proof fn lemma_clear_sites(
    h: HeapView,
    young: Seq<usize>,
    old: Seq<usize>,
    o: int,
    s: int,
    n: int,
    nil: Value,
    touched: Set<int>,
)
    requires
        laid_out(h, young, old),
        present(young, old, o),
        0 <= s,
        5 * n <= h.nslots(o),
        touched.contains(o),
    ensures
        beside(h, h.clear_sites(o, s, n, nil), young, old, touched),
    decreases n - s,
{
    if s >= n {
        lemma_beside_self(h, young, old, touched);
    } else {
        let i = s * SITE_STRIDE + SITE_CACHE_CLASS;
        let j = s * SITE_STRIDE + SITE_CACHE_METHOD;
        lemma_set(h, young, old, o, i, crate::value::tag(0), touched);
        let h1 = h.set_slot(o, i, crate::value::tag(0));
        lemma_beside(h, h1, young, old, touched, o);
        lemma_set(h1, young, old, o, j, nil, touched);
        let h2 = h1.set_slot(o, j, nil);
        lemma_beside(h1, h2, young, old, touched, o);
        lemma_clear_sites(h2, young, old, o, s + 1, n, nil, touched);
        let r = h2.clear_sites(o, s + 1, n, nil);
        lemma_beside_on(h, h1, h2, young, old, touched);
        lemma_beside_on(h, h2, r, young, old, touched);
    }
}

proof fn lemma_clear_all(
    h: HeapView,
    young: Seq<usize>,
    old: Seq<usize>,
    list: Seq<Value>,
    i: int,
    nil: Value,
    touched: Set<int>,
)
    requires
        laid_out(h, young, old),
        0 <= i,
        forall|k: int|
            i <= k < list.len() ==> present(young, old, (#[trigger] list[k]).addr())
                && touched.contains(list[k].addr()),
    ensures
        beside(h, h.clear_all_sites(list, i, nil), young, old, touched),
    decreases list.len() - i,
{
    if i >= list.len() {
        lemma_beside_self(h, young, old, touched);
    } else {
        let o = list[i].addr();
        lemma_apart_all(h, young, old, o, o);
        lemma_clear_sites(h, young, old, o, 0, h.nslots(o) as int / 5, nil, touched);
        let h1 = h.clear_sites(o, 0, h.nslots(o) as int / 5, nil);
        lemma_beside(h, h1, young, old, touched, o);
        lemma_clear_all(h1, young, old, list, i + 1, nil, touched);
        lemma_beside_on(h, h1, h1.clear_all_sites(list, i + 1, nil), young, old, touched);
    }
}

/// Send site `s` of the array at `o` remembers no method.
pub open spec fn site_empty(h: HeapView, o: int, s: int, nil: Value) -> bool {
    &&& h.slot(o, s * SITE_STRIDE + SITE_CACHE_CLASS) == crate::value::tag(0)
    &&& h.slot(o, s * SITE_STRIDE + SITE_CACHE_METHOD) == nil
}

/// No site of the array at `o` remembers a method.
pub open spec fn sites_empty(h: HeapView, o: int, nil: Value) -> bool {
    forall|s: int| 0 <= s < h.nslots(o) as int / 5 ==> #[trigger] site_empty(h, o, s, nil)
}

#[verifier::rlimit(60)]
proof fn lemma_sites_emptied(
    h: HeapView,
    young: Seq<usize>,
    old: Seq<usize>,
    o: int,
    s: int,
    n: int,
    nil: Value,
)
    requires
        laid_out(h, young, old),
        present(young, old, o),
        0 <= s,
        5 * n <= h.nslots(o),
    ensures
        forall|x: int|
            s <= x < n || (0 <= x < n && site_empty(h, o, x, nil)) ==> #[trigger] site_empty(
                h.clear_sites(o, s, n, nil),
                o,
                x,
                nil,
            ),
    decreases n - s,
{
    if s < n {
        let i = s * SITE_STRIDE + SITE_CACHE_CLASS;
        let j = s * SITE_STRIDE + SITE_CACHE_METHOD;
        assert(roomy(h, young, old, o, i));
        lemma_slot_stored(h, young, old, o, i, crate::value::tag(0));
        let h1 = h.set_slot(o, i, crate::value::tag(0));
        assert(h1.nslots(o) == h.nslots(o));
        assert(roomy(h1, young, old, o, j));
        lemma_slot_stored(h1, young, old, o, j, nil);
        let h2 = h1.set_slot(o, j, nil);
        assert(h2.nslots(o) == h1.nslots(o));
        lemma_sites_emptied(h2, young, old, o, s + 1, n, nil);
        let r = h2.clear_sites(o, s + 1, n, nil);
        assert(h.clear_sites(o, s, n, nil) == r);
        assert forall|x: int|
            s <= x < n || (0 <= x < n && site_empty(h, o, x, nil)) implies #[trigger] site_empty(
            h.clear_sites(o, s, n, nil),
            o,
            x,
            nil,
        ) by {
            let a = x * SITE_STRIDE + SITE_CACHE_CLASS;
            let b = x * SITE_STRIDE + SITE_CACHE_METHOD;
            assert(roomy(h, young, old, o, a) && roomy(h, young, old, o, b));
            assert(roomy(h1, young, old, o, a) && roomy(h1, young, old, o, b));
            if x <= s {
                if x == s {
                    assert(h2.slot(o, i) == h1.slot(o, i));
                } else {
                    assert(h1.slot(o, a) == h.slot(o, a) && h1.slot(o, b) == h.slot(o, b));
                    assert(h2.slot(o, a) == h1.slot(o, a) && h2.slot(o, b) == h1.slot(o, b));
                }
                assert(site_empty(h2, o, x, nil));
            }
            assert(site_empty(r, o, x, nil));
        }
    }
}

proof fn lemma_all_emptied(
    h: HeapView,
    young: Seq<usize>,
    old: Seq<usize>,
    list: Seq<Value>,
    i: int,
    nil: Value,
)
    requires
        laid_out(h, young, old),
        0 <= i,
        forall|k: int| i <= k < list.len() ==> present(young, old, (#[trigger] list[k]).addr()),
    ensures
        forall|k: int|
            i <= k < list.len() ==> sites_empty(
                h.clear_all_sites(list, i, nil),
                (#[trigger] list[k]).addr(),
                nil,
            ),
        forall|o: int| #[trigger]
            present(young, old, o) && sites_empty(h, o, nil) ==> sites_empty(
                h.clear_all_sites(list, i, nil),
                o,
                nil,
            ),
    decreases list.len() - i,
{
    if i < list.len() {
        let o = list[i].addr();
        let n = h.nslots(o) as int / 5;
        let t = set![o];
        assert(present(young, old, o));
        lemma_apart_all(h, young, old, o, o);
        lemma_clear_sites(h, young, old, o, 0, n, nil, t);
        lemma_sites_emptied(h, young, old, o, 0, n, nil);
        let h1 = h.clear_sites(o, 0, n, nil);
        lemma_beside(h, h1, young, old, t, o);
        assert(sites_empty(h1, o, nil));
        lemma_all_emptied(h1, young, old, list, i + 1, nil);
        assert forall|p: int| #[trigger]
            present(young, old, p) && sites_empty(h, p, nil) implies sites_empty(h1, p, nil) by {
            lemma_beside(h, h1, young, old, t, p);
            if p != o {
                assert forall|s: int| 0 <= s < h1.nslots(p) as int / 5 implies #[trigger] site_empty(
                    h1,
                    p,
                    s,
                    nil,
                ) by {
                    assert(site_empty(h, p, s, nil));
                    let a = s * SITE_STRIDE + SITE_CACHE_CLASS;
                    let b = s * SITE_STRIDE + SITE_CACHE_METHOD;
                    assert(h1.slot(p, a) == h.slot(p, a) && h1.slot(p, b) == h.slot(p, b));
                }
            }
        }
    }
}

/// Flushing the caches leaves no registered send site with a method that it
/// remembers.
pub proof fn law_flush_empties_sites(v: VmView, young: Seq<usize>, old: Seq<usize>)
    requires
        laid_out(v.heap, young, old),
        forall|k: int|
            0 <= k < v.sites.len() ==> present(young, old, (#[trigger] v.sites[k]).addr()),
    ensures
        forall|k: int|
            0 <= k < v.sites.len() ==> sites_empty(
                v.flushed().heap,
                (#[trigger] v.sites[k]).addr(),
                v.nil(),
            ),
{
    lemma_all_emptied(v.heap, young, old, v.sites, 0, v.nil());
}

// ---------------------------------------------------------------------------
// New arrays
// ---------------------------------------------------------------------------
/// An old allocation leaves one more object, and the others as they were.
#[verifier::rlimit(60)]
proof fn lemma_grown(h: HeapView, young: Seq<usize>, old: Seq<usize>, n: int, fill: Value) -> (a:
    usize)
    requires
        laid_out(h, young, old),
        0 <= n,
    ensures
        h.alloc_old(CLASS_ARRAY, FMT_PTRS, n, Some(fill.0), false) matches Some((r, b)) ==> {
            &&& b == a
            &&& laid_out(r, young, old.push(a))
            &&& r.nslots(b) == n
            &&& !present(young, old, b)
            &&& forall|c: int| #[trigger] present(young, old, c) ==> same_slots(h, r, c)
        },
{
    match h.alloc_old(CLASS_ARRAY, FMT_PTRS, n, Some(fill.0), false) {
        None => 0,
        Some((r, b)) => {
            law_alloc_old(h, CLASS_ARRAY, FMT_PTRS, n, Some(fill.0), false);
            let top = h.old.top();
            crate::heap::lemma_packed_fields(
                CLASS_ARRAY as u64,
                FMT_PTRS,
                if n >= 255 {
                    255u64
                } else {
                    n as u64
                },
            );
            assert(r.storage_start(b) == top && fin(r, b) == r.old.top()) by {
                reveal(HeapView::read);
            }
            let a = b as usize;
            assert(a == b);
            assert forall|c: int| #[trigger] present(young, old, c) implies same_slots(h, r, c)
                && same_size(h, r, c) && c != b by {
                lemma_apart_all(h, young, old, c, c);
                if listed(old, c) {
                    crate::graph::lemma_within(h, old, h.old.base, h.old.top(), c);
                } else {
                    crate::graph::lemma_within(h, young, h.from.base, h.from.top(), c);
                }
                assert(r.read(c) == h.read(c));
                if h.has_over(c) {
                    assert(r.read(c - 8) == h.read(c - 8));
                }
                assert forall|j: int| 0 <= j < h.nslots(c) implies #[trigger] r.slot(c, j)
                    == h.slot(c, j) by {
                    assert(h.plausible(c + 8 + 8 * j));
                }
            }
            assert forall|k: int| 0 <= k < old.len() implies same_size(
                h,
                r,
                (#[trigger] old[k]) as int,
            ) by {
                assert(present(young, old, old[k] as int));
            }
            lemma_tiles_kept(h, r, old, h.old.base, top);
            lemma_tiles_more(r, old, h.old.base, top, a);
            assert forall|k: int| 0 <= k < young.len() implies same_size(
                h,
                r,
                (#[trigger] young[k]) as int,
            ) by {
                assert(present(young, old, young[k] as int));
            }
            lemma_tiles_kept(h, r, young, h.from.base, h.from.top());
            a
        },
    }
}

// ---------------------------------------------------------------------------
// Dictionaries
// ---------------------------------------------------------------------------
/// A method dictionary with its keys and values, all of them objects.
pub open spec fn dictionary(
    h: HeapView,
    young: Seq<usize>,
    old: Seq<usize>,
    mdict: int,
    keys: int,
    vals: int,
) -> bool {
    &&& present(young, old, mdict) && present(young, old, keys) && present(young, old, vals)
    &&& keys != vals && mdict != keys && mdict != vals
    &&& h.nslots(mdict) >= MDICT_NUM_VM_SLOTS
    &&& h.slot(mdict, MDICT_KEYS as int).addr() == keys
    &&& h.slot(mdict, MDICT_VALUES as int).addr() == vals
    &&& h.nslots(keys) <= h.nslots(vals)
}

/// The value next to the first key that is the selector.
pub open spec fn found_in(h: HeapView, keys: int, vals: int, selector: Value) -> Option<Value> {
    let n = h.nslots(keys) as int;
    let i = h.slot_index(keys, selector, 0, n);
    if i < n {
        Some(h.slot(vals, i))
    } else {
        None
    }
}

/// Searching a dictionary is searching its keys.
proof fn lemma_find(
    h: HeapView,
    young: Seq<usize>,
    old: Seq<usize>,
    mdict: Value,
    keys: int,
    vals: int,
    selector: Value,
)
    requires
        laid_out(h, young, old),
        dictionary(h, young, old, mdict.addr(), keys, vals),
    ensures
        h.mdict_find(mdict, selector) == found_in(h, keys, vals, selector),
{
    lemma_apart_all(h, young, old, mdict.addr(), mdict.addr());
    lemma_apart_all(h, young, old, keys, keys);
    lemma_apart_all(h, young, old, vals, vals);
}

/// Where the first slot with a value is.
proof fn lemma_index(h: HeapView, o: int, v: Value, i: int, n: int)
    requires
        0 <= i <= n,
    ensures
        i <= h.slot_index(o, v, i, n) <= n,
        h.slot_index(o, v, i, n) < n ==> h.slot(o, h.slot_index(o, v, i, n)) == v,
    decreases n - i,
{
    if i < n && h.slot(o, i) != v {
        lemma_index(h, o, v, i + 1, n);
    }
}

/// It is the same in another array with the same slots.
proof fn lemma_index_same(h: HeapView, r: HeapView, o: int, p: int, v: Value, i: int, n: int)
    requires
        0 <= i <= n,
        forall|j: int| i <= j < n ==> #[trigger] r.slot(p, j) == h.slot(o, j),
    ensures
        r.slot_index(p, v, i, n) == h.slot_index(o, v, i, n),
    decreases n - i,
{
    if i < n {
        assert(r.slot(p, i) == h.slot(o, i));
        if h.slot(o, i) != v {
            lemma_index_same(h, r, o, p, v, i + 1, n);
        }
    }
}

/// One more slot is found only after the others.
proof fn lemma_index_more(h: HeapView, o: int, v: Value, i: int, n: int)
    requires
        0 <= i <= n,
    ensures
        h.slot_index(o, v, i, n + 1) == (if h.slot_index(o, v, i, n) < n {
            h.slot_index(o, v, i, n)
        } else if h.slot(o, n) == v {
            n
        } else {
            n + 1
        }),
    decreases n - i,
{
    lemma_index(h, o, v, i, n);
    reveal_with_fuel(HeapView::slot_index, 2);
    if i < n && h.slot(o, i) != v {
        lemma_index_more(h, o, v, i + 1, n);
        lemma_index(h, o, v, i + 1, n);
    }
}

/// Entries copied to arrays of their own stand there in order.
#[verifier::rlimit(60)]
proof fn lemma_copied(
    h: HeapView,
    young: Seq<usize>,
    old: Seq<usize>,
    keys: int,
    vals: int,
    new_keys: int,
    new_vals: int,
    i: int,
    n: int,
)
    requires
        laid_out(h, young, old),
        present(young, old, keys),
        present(young, old, vals),
        present(young, old, new_keys),
        present(young, old, new_vals),
        keys != new_keys && keys != new_vals && vals != new_keys && vals != new_vals,
        new_keys != new_vals,
        0 <= i <= n,
        n <= h.nslots(keys),
        n <= h.nslots(vals),
        n <= h.nslots(new_keys),
        n <= h.nslots(new_vals),
        forall|j: int| 0 <= j < i ==> #[trigger] h.slot(new_keys, j) == h.slot(keys, j),
        forall|j: int| 0 <= j < i ==> #[trigger] h.slot(new_vals, j) == h.slot(vals, j),
    ensures
        ({
            let r = h.copy_entries(keys, vals, new_keys, new_vals, i, n);
            &&& beside(h, r, young, old, set![new_keys, new_vals])
            &&& forall|j: int| 0 <= j < n ==> #[trigger] r.slot(new_keys, j) == h.slot(keys, j)
            &&& forall|j: int| 0 <= j < n ==> #[trigger] r.slot(new_vals, j) == h.slot(vals, j)
        }),
    decreases n - i,
{
    let t = set![new_keys, new_vals];
    if i >= n {
        lemma_beside_self(h, young, old, t);
    } else {
        let k = h.slot(keys, i);
        let v = h.slot(vals, i);
        lemma_store(h, young, old, new_keys, i, k, set![new_keys]);
        let h1 = h.store(new_keys, i, k);
        lemma_beside(h, h1, young, old, set![new_keys], keys);
        lemma_beside(h, h1, young, old, set![new_keys], vals);
        lemma_beside(h, h1, young, old, set![new_keys], new_keys);
        lemma_beside(h, h1, young, old, set![new_keys], new_vals);
        lemma_store(h1, young, old, new_vals, i, v, set![new_vals]);
        let h2 = h1.store(new_vals, i, v);
        lemma_beside(h1, h2, young, old, set![new_vals], keys);
        lemma_beside(h1, h2, young, old, set![new_vals], vals);
        lemma_beside(h1, h2, young, old, set![new_vals], new_keys);
        lemma_beside(h1, h2, young, old, set![new_vals], new_vals);
        assert forall|j: int| 0 <= j < i + 1 implies #[trigger] h2.slot(new_keys, j) == h2.slot(
            keys,
            j,
        ) by {
            assert(h2.slot(new_keys, j) == h1.slot(new_keys, j));
            assert(h2.slot(keys, j) == h1.slot(keys, j));
            assert(h1.slot(keys, j) == h.slot(keys, j));
            if j < i {
                assert(h1.slot(new_keys, j) == h.slot(new_keys, j));
            }
        }
        assert forall|j: int| 0 <= j < i + 1 implies #[trigger] h2.slot(new_vals, j) == h2.slot(
            vals,
            j,
        ) by {
            assert(h2.slot(vals, j) == h1.slot(vals, j));
            assert(h1.slot(vals, j) == h.slot(vals, j));
            if j < i {
                assert(h2.slot(new_vals, j) == h1.slot(new_vals, j));
                assert(h1.slot(new_vals, j) == h.slot(new_vals, j));
            }
        }
        lemma_copied(h2, young, old, keys, vals, new_keys, new_vals, i + 1, n);
        let r = h2.copy_entries(keys, vals, new_keys, new_vals, i + 1, n);
        lemma_wider(h, h1, young, old, set![new_keys], t);
        lemma_wider(h1, h2, young, old, set![new_vals], t);
        lemma_beside_on(h, h1, h2, young, old, t);
        lemma_beside_on(h, h2, r, young, old, t);
        assert forall|j: int| 0 <= j < n implies #[trigger] r.slot(new_keys, j) == h.slot(keys, j)
            by {
            assert(h2.slot(keys, j) == h1.slot(keys, j));
            assert(h1.slot(keys, j) == h.slot(keys, j));
        }
        assert forall|j: int| 0 <= j < n implies #[trigger] r.slot(new_vals, j) == h.slot(vals, j)
            by {
            assert(h2.slot(vals, j) == h1.slot(vals, j));
            assert(h1.slot(vals, j) == h.slot(vals, j));
        }
    }
}

proof fn lemma_wider(
    h: HeapView,
    r: HeapView,
    young: Seq<usize>,
    old: Seq<usize>,
    s: Set<int>,
    t: Set<int>,
)
    requires
        beside(h, r, young, old, s),
        s.subset_of(t),
    ensures
        beside(h, r, young, old, t),
{
    reveal(beside);
}

/// What entering a method in a dictionary does: the dictionary answers the
/// method for the selector and for others what it answered before, and other
/// objects are as they were.
pub open spec fn entry_made(
    h: HeapView,
    r: HeapView,
    young: Seq<usize>,
    old: Seq<usize>,
    old1: Seq<usize>,
    mdict: Value,
    keys: int,
    vals: int,
    selector: Value,
    method: Value,
    k1: int,
    v1: int,
) -> bool {
    &&& laid_out(r, young, old1)
    &&& old.is_prefix_of(old1)
    &&& dictionary(r, young, old1, mdict.addr(), k1, v1)
    &&& k1 == keys || !present(young, old, k1)
    &&& v1 == vals || !present(young, old, v1)
    &&& found_in(r, k1, v1, selector) == Some(method)
    &&& forall|s: Value|
        s != selector ==> #[trigger] found_in(r, k1, v1, s) == found_in(h, keys, vals, s)
    &&& forall|a: int| #[trigger]
        present(young, old, a) && a != mdict.addr() && a != vals ==> same_slots(h, r, a)
}

/// An entry replaced.
proof fn lemma_replaced(
    h: HeapView,
    young: Seq<usize>,
    old: Seq<usize>,
    mdict: Value,
    keys: int,
    vals: int,
    selector: Value,
    method: Value,
)
    requires
        laid_out(h, young, old),
        dictionary(h, young, old, mdict.addr(), keys, vals),
        h.slot_index(keys, selector, 0, h.nslots(keys) as int) < h.nslots(keys),
    ensures
        entry_made(
            h,
            h.store(vals, h.slot_index(keys, selector, 0, h.nslots(keys) as int), method),
            young,
            old,
            old,
            mdict,
            keys,
            vals,
            selector,
            method,
            keys,
            vals,
        ),
{
    let n = h.nslots(keys) as int;
    let i = h.slot_index(keys, selector, 0, n);
    let r = h.store(vals, i, method);
    let t = set![vals];
    lemma_index(h, keys, selector, 0, n);
    lemma_store(h, young, old, vals, i, method, t);
    lemma_beside(h, r, young, old, t, keys);
    lemma_beside(h, r, young, old, t, vals);
    lemma_beside(h, r, young, old, t, mdict.addr());
    lemma_index_same(h, r, keys, keys, selector, 0, n);
    assert forall|s: Value| s != selector implies #[trigger] found_in(r, keys, vals, s) == found_in(
        h,
        keys,
        vals,
        s,
    ) by {
        lemma_index(h, keys, s, 0, n);
        lemma_index_same(h, r, keys, keys, s, 0, n);
        let j = h.slot_index(keys, s, 0, n);
        if j < n {
            assert(j != i);
            assert(r.slot(vals, j) == h.slot(vals, j));
        }
    }
    assert forall|a: int| #[trigger]
        present(young, old, a) && a != mdict.addr() && a != vals implies same_slots(h, r, a) by {
        lemma_beside(h, r, young, old, t, a);
    }
}

proof fn lemma_present_more(young: Seq<usize>, old: Seq<usize>, a: usize)
    ensures
        forall|c: int| #[trigger] present(young, old, c) ==> present(young, old.push(a), c),
        present(young, old.push(a), a as int),
{
    let t = old.push(a);
    assert(t[old.len() as int] == a);
    assert forall|c: int| #[trigger] present(young, old, c) implies present(young, t, c) by {
        if listed(old, c) {
            let k = choose|k: int| 0 <= k < old.len() && #[trigger] old[k] == c;
            assert(t[k] == c);
        }
    }
}

/// The two new arrays of a dictionary that gets one more entry.
proof fn lemma_two_arrays(
    h: HeapView,
    young: Seq<usize>,
    old: Seq<usize>,
    n: int,
    nil: Value,
) -> (found: (usize, usize))
    requires
        laid_out(h, young, old),
        0 <= n,
    ensures
        h.alloc_old(CLASS_ARRAY, FMT_PTRS, n, Some(nil.0), false) matches Some((h1, k)) ==> (
        h1.alloc_old(CLASS_ARRAY, FMT_PTRS, n, Some(nil.0), false) matches Some((h2, v)) ==> {
            let old2 = old.push(found.0).push(found.1);
            &&& k == found.0 && v == found.1 && k != v
            &&& laid_out(h2, young, old2)
            &&& old.is_prefix_of(old2)
            &&& h2.nslots(k) == n && h2.nslots(v) == n
            &&& !present(young, old, k) && !present(young, old, v)
            &&& present(young, old2, k) && present(young, old2, v)
            &&& forall|c: int| #[trigger]
                present(young, old, c) ==> same_slots(h, h2, c) && present(young, old2, c)
        }),
{
    let a = lemma_grown(h, young, old, n, nil);
    lemma_present_more(young, old, a);
    match h.alloc_old(CLASS_ARRAY, FMT_PTRS, n, Some(nil.0), false) {
        None => (a, a),
        Some((h1, k)) => {
            let old1 = old.push(a);
            let b = lemma_grown(h1, young, old1, n, nil);
            lemma_present_more(young, old1, b);
            if let Some((h2, v)) = h1.alloc_old(CLASS_ARRAY, FMT_PTRS, n, Some(nil.0), false) {
                assert(present(young, old1, k));
                assert forall|c: int| #[trigger] present(young, old, c) implies same_slots(h, h2, c)
                    by {
                    assert(present(young, old1, c));
                    assert(same_slots(h, h1, c) && same_slots(h1, h2, c));
                    assert forall|j: int| 0 <= j < h.nslots(c) implies #[trigger] h2.slot(c, j)
                        == h.slot(c, j) by {
                        assert(h1.slot(c, j) == h.slot(c, j));
                    }
                }
                assert(old.is_prefix_of(old1.push(b)));
            }
            (a, b)
        },
    }
}

/// An entry added.
#[verifier::rlimit(60)]
#[verifier::spinoff_prover]
proof fn lemma_added(
    h: HeapView,
    h2: HeapView,
    young: Seq<usize>,
    old: Seq<usize>,
    old2: Seq<usize>,
    mdict: Value,
    keys: int,
    vals: int,
    selector: Value,
    method: Value,
    k: int,
    v: int,
)
    requires
        dictionary(h, young, old, mdict.addr(), keys, vals),
        h.slot_index(keys, selector, 0, h.nslots(keys) as int) >= h.nslots(keys),
        laid_out(h2, young, old2),
        old.is_prefix_of(old2),
        k != v,
        0 <= k <= u64::MAX && 0 <= v <= u64::MAX,
        h2.nslots(k) == h.nslots(keys) + 1 && h2.nslots(v) == h.nslots(keys) + 1,
        !present(young, old, k) && !present(young, old, v),
        present(young, old2, k) && present(young, old2, v),
        forall|c: int| #[trigger]
            present(young, old, c) ==> same_slots(h, h2, c) && present(young, old2, c),
    ensures
        ({
            let n = h.nslots(keys) as int;
            let r = h2.copy_entries(keys, vals, k, v, 0, n).store(k, n, selector).store(
                v,
                n,
                method,
            ).store(mdict.addr(), MDICT_KEYS as int, Value(k as u64)).store(
                mdict.addr(),
                MDICT_VALUES as int,
                Value(v as u64),
            );
            entry_made(h, r, young, old, old2, mdict, keys, vals, selector, method, k, v)
        }),
{
    let n = h.nslots(keys) as int;
    let md = mdict.addr();
    let kv = set![k, v];
    let t = set![k, v, md];
    assert(present(young, old, keys) && present(young, old, vals) && present(young, old, md));
    assert(same_slots(h, h2, keys) && same_slots(h, h2, vals) && same_slots(h, h2, md));
    lemma_copied(h2, young, old2, keys, vals, k, v, 0, n);
    let h3 = h2.copy_entries(keys, vals, k, v, 0, n);
    lemma_beside(h2, h3, young, old2, kv, k);
    lemma_beside(h2, h3, young, old2, kv, v);
    lemma_beside(h2, h3, young, old2, kv, md);
    lemma_store(h3, young, old2, k, n, selector, set![k]);
    let h4 = h3.store(k, n, selector);
    lemma_beside(h3, h4, young, old2, set![k], k);
    lemma_beside(h3, h4, young, old2, set![k], v);
    lemma_beside(h3, h4, young, old2, set![k], md);
    lemma_store(h4, young, old2, v, n, method, set![v]);
    let h5 = h4.store(v, n, method);
    lemma_beside(h4, h5, young, old2, set![v], k);
    lemma_beside(h4, h5, young, old2, set![v], v);
    lemma_beside(h4, h5, young, old2, set![v], md);
    lemma_store(h5, young, old2, md, MDICT_KEYS as int, Value(k as u64), set![md]);
    let h6 = h5.store(md, MDICT_KEYS as int, Value(k as u64));
    lemma_beside(h5, h6, young, old2, set![md], k);
    lemma_beside(h5, h6, young, old2, set![md], v);
    lemma_beside(h5, h6, young, old2, set![md], md);
    lemma_store(h6, young, old2, md, MDICT_VALUES as int, Value(v as u64), set![md]);
    let r = h6.store(md, MDICT_VALUES as int, Value(v as u64));
    lemma_beside(h6, r, young, old2, set![md], k);
    lemma_beside(h6, r, young, old2, set![md], v);
    lemma_beside(h6, r, young, old2, set![md], md);
    lemma_wider(h2, h3, young, old2, kv, t);
    lemma_wider(h3, h4, young, old2, set![k], t);
    lemma_wider(h4, h5, young, old2, set![v], t);
    lemma_wider(h5, h6, young, old2, set![md], t);
    lemma_wider(h6, r, young, old2, set![md], t);
    lemma_beside_on(h2, h3, h4, young, old2, t);
    lemma_beside_on(h2, h4, h5, young, old2, t);
    lemma_beside_on(h2, h5, h6, young, old2, t);
    lemma_beside_on(h2, h6, r, young, old2, t);
    assert(r.slot(md, MDICT_KEYS as int) == Value(k as u64));
    assert(r.slot(md, MDICT_VALUES as int) == Value(v as u64));
    assert forall|j: int| 0 <= j < n implies #[trigger] r.slot(k, j) == h.slot(keys, j) by {
        assert(r.slot(k, j) == h6.slot(k, j));
        assert(h6.slot(k, j) == h5.slot(k, j));
        assert(h5.slot(k, j) == h4.slot(k, j));
        assert(h4.slot(k, j) == h3.slot(k, j));
        assert(h2.slot(keys, j) == h.slot(keys, j));
    }
    assert forall|j: int| 0 <= j < n implies #[trigger] r.slot(v, j) == h.slot(vals, j) by {
        assert(r.slot(v, j) == h6.slot(v, j));
        assert(h6.slot(v, j) == h5.slot(v, j));
        assert(h5.slot(v, j) == h4.slot(v, j));
        assert(h4.slot(v, j) == h3.slot(v, j));
        assert(h2.slot(vals, j) == h.slot(vals, j));
    }
    assert(r.slot(k, n) == selector) by {
        assert(r.slot(k, n) == h6.slot(k, n));
        assert(h6.slot(k, n) == h5.slot(k, n));
        assert(h5.slot(k, n) == h4.slot(k, n));
    }
    assert(r.slot(v, n) == method) by {
        assert(r.slot(v, n) == h6.slot(v, n));
        assert(h6.slot(v, n) == h5.slot(v, n));
    }
    assert(r.nslots(k) == n + 1 && r.nslots(v) == n + 1);
    assert forall|s: Value| #[trigger] found_in(r, k, v, s) == (if s == selector {
        Some(method)
    } else {
        found_in(h, keys, vals, s)
    }) by {
        lemma_index(h, keys, s, 0, n);
        lemma_index_same(h, r, keys, k, s, 0, n);
        lemma_index_more(r, k, s, 0, n);
        let j = h.slot_index(keys, s, 0, n);
        if j < n {
            assert(r.slot(v, j) == h.slot(vals, j));
        }
    }
    assert forall|a: int| #[trigger]
        present(young, old, a) && a != md && a != vals implies same_slots(h, r, a) by {
        assert(present(young, old2, a));
        lemma_beside(h2, r, young, old2, t, a);
        assert(same_slots(h, h2, a));
        assert forall|j: int| 0 <= j < h.nslots(a) implies #[trigger] r.slot(a, j) == h.slot(a, j)
            by {
            assert(h2.slot(a, j) == h.slot(a, j));
        }
    }
}

// ---------------------------------------------------------------------------
// The law
// ---------------------------------------------------------------------------
/// What an installation works on, all of it objects, and no object in two
/// roles.
pub open spec fn installation(
    v: VmView,
    young: Seq<usize>,
    old: Seq<usize>,
    class: Value,
    mdict: Value,
    keys: int,
    vals: int,
    method: Value,
) -> bool {
    let h = v.heap;
    let sites = h.slot(method.addr(), METHOD_SEND_SITES as int);
    &&& laid_out(h, young, old)
    &&& dictionary(h, young, old, mdict.addr(), keys, vals)
    &&& present(young, old, class.addr()) && h.nslots(class.addr()) > BEHAVIOR_METHOD_DICTIONARY
    &&& h.slot(class.addr(), BEHAVIOR_METHOD_DICTIONARY as int) == mdict
    &&& present(young, old, method.addr()) && h.nslots(method.addr()) > METHOD_CLASS
        && h.nslots(method.addr()) > METHOD_SELECTOR && h.nslots(method.addr())
        > METHOD_SEND_SITES
    &&& apart(class, mdict, keys, vals, method.addr())
    &&& class != method
    &&& sites.tagged_ptr() && sites != v.nil() ==> present(young, old, sites.addr()) && apart(
        class,
        mdict,
        keys,
        vals,
        sites.addr(),
    )
    &&& forall|k: int|
        0 <= k < v.sites.len() ==> present(young, old, (#[trigger] v.sites[k]).addr()) && apart(
            class,
            mdict,
            keys,
            vals,
            v.sites[k].addr(),
        )
    &&& class.addr() != mdict.addr() && class.addr() != vals && class != v.nil() && mdict
        != v.nil()
}

/// `a` is neither the class nor part of its dictionary.
pub open spec fn apart(class: Value, mdict: Value, keys: int, vals: int, a: int) -> bool {
    a != class.addr() && a != mdict.addr() && a != keys && a != vals
}

/// Stamping a method and flushing the caches touch the method and send-site
/// arrays alone.
proof fn lemma_stamped(
    v: VmView,
    young: Seq<usize>,
    old: Seq<usize>,
    class: Value,
    selector: Value,
    method: Value,
    touched: Set<int>,
)
    requires
        laid_out(v.heap, young, old),
        present(young, old, method.addr()),
        v.heap.nslots(method.addr()) > METHOD_CLASS,
        v.heap.nslots(method.addr()) > METHOD_SELECTOR,
        v.heap.nslots(method.addr()) > METHOD_SEND_SITES,
        touched.contains(method.addr()),
        ({
            let s = v.heap.slot(method.addr(), METHOD_SEND_SITES as int);
            s.tagged_ptr() && s != v.nil() ==> present(young, old, s.addr()) && touched.contains(
                s.addr(),
            )
        }),
        forall|k: int|
            0 <= k < v.sites.len() ==> present(young, old, (#[trigger] v.sites[k]).addr())
                && touched.contains(v.sites[k].addr()),
    ensures
        beside(v.heap, v.stamped(method, selector, class).heap, young, old, touched),
{
    let h = v.heap;
    let m = method.addr();
    lemma_store(h, young, old, m, METHOD_SELECTOR as int, selector, touched);
    let h1 = h.store(m, METHOD_SELECTOR as int, selector);
    lemma_beside(h, h1, young, old, touched, m);
    lemma_store(h1, young, old, m, METHOD_CLASS as int, class, touched);
    let h2 = h1.store(m, METHOD_CLASS as int, class);
    lemma_beside(h1, h2, young, old, touched, m);
    let s = h2.slot(m, METHOD_SEND_SITES as int);
    assert(s == h.slot(m, METHOD_SEND_SITES as int)) by {
        assert(h1.slot(m, METHOD_SEND_SITES as int) == h.slot(m, METHOD_SEND_SITES as int));
    }
    let sites = if s.tagged_ptr() && s != v.nil() && !v.sites.contains(s) {
        v.sites.push(s)
    } else {
        v.sites
    };
    assert forall|k: int| 0 <= k < sites.len() implies present(
        young,
        old,
        (#[trigger] sites[k]).addr(),
    ) && touched.contains(sites[k].addr()) by {
        if k < v.sites.len() {
            assert(sites[k] == v.sites[k]);
        }
    }
    lemma_clear_all(h2, young, old, sites, 0, v.nil(), touched);
    let r = h2.clear_all_sites(sites, 0, v.nil());
    lemma_beside_on(h, h1, h2, young, old, touched);
    lemma_beside_on(h, h2, r, young, old, touched);
}

/// A method that was installed is found: the dictionary of its class answers
/// it for its selector and for other selectors what it answered before, a
/// lookup in the class finds it, and no cache remembers anything else.
#[verifier::rlimit(60)]
#[verifier::spinoff_prover]
pub proof fn law_installed_is_found(
    v: VmView,
    young: Seq<usize>,
    old: Seq<usize>,
    class: Value,
    mdict: Value,
    keys: int,
    vals: int,
    selector: Value,
    method: Value,
    index: u32,
)
    requires
        installation(v, young, old, class, mdict, keys, vals, method),
        index < v.class_table.len(),
        v.class_table[index as int] == class,
    ensures
        v.installed(class, selector, method) matches Ok(w) ==> {
            &&& w.heap.mdict_find(mdict, selector) == Some(method)
            &&& forall|s: Value|
                s != selector ==> #[trigger] w.heap.mdict_find(mdict, s) == v.heap.mdict_find(
                    mdict,
                    s,
                )
            &&& w.lookup(index, selector) == (Some(method), 1int)
            &&& w.coherent()
        },
{
    if let Ok(w) = v.installed(class, selector, method) {
        let h = v.heap;
        let n = h.nslots(keys) as int;
        let i = h.slot_index(keys, selector, 0, n);
        lemma_index(h, keys, selector, 0, n);
        let nil = v.nil();
        let heap = h.entered(class, selector, method, nil)->0;
        let (old1, k1, v1) = if i < n {
            lemma_replaced(h, young, old, mdict, keys, vals, selector, method);
            (old, keys, vals)
        } else {
            let (a, b) = lemma_two_arrays(h, young, old, n + 1, nil);
            let (h1, k) = h.alloc_old(CLASS_ARRAY, FMT_PTRS, n + 1, Some(nil.0), false)->0;
            let (h2, b1) = h1.alloc_old(CLASS_ARRAY, FMT_PTRS, n + 1, Some(nil.0), false)->0;
            let old2 = old.push(a).push(b);
            lemma_added(
                h,
                h2,
                young,
                old,
                old2,
                mdict,
                keys,
                vals,
                selector,
                method,
                a as int,
                b as int,
            );
            (old2, a as int, b as int)
        };
        assert(entry_made(h, heap, young, old, old1, mdict, keys, vals, selector, method, k1, v1));
        let v2 = VmView {
            heap,
            ctr: crate::counters::CountersView {
                method_installs: v.ctr.method_installs.wrapping_add(1),
                ..v.ctr
            },
            ..v
        };
        assert(w == v2.stamped(method, selector, class));
        assert forall|a: int| #[trigger] present(young, old, a) implies present(young, old1, a) by {
            lemma_prefix_present(young, old, old1, a);
        }
        let cl = class.addr();
        let m = method.addr();
        assert(present(young, old, m) && present(young, old, cl));
        assert(same_slots(h, heap, m) && same_slots(h, heap, cl));
        let t = Set::new(|a: int| a != cl && a != mdict.addr() && a != k1 && a != v1);
        assert forall|a: int| present(young, old, a) && #[trigger] apart(class, mdict, keys, vals, a)
            implies t.contains(a) by {
        }
        assert(apart(class, mdict, keys, vals, m));
        let s = h.slot(m, METHOD_SEND_SITES as int);
        assert(heap.slot(m, METHOD_SEND_SITES as int) == s);
        if s.tagged_ptr() && s != nil {
            assert(apart(class, mdict, keys, vals, s.addr()));
        }
        assert forall|k: int| 0 <= k < v2.sites.len() implies present(
            young,
            old1,
            (#[trigger] v2.sites[k]).addr(),
        ) && t.contains(v2.sites[k].addr()) by {
            assert(v2.sites[k] == v.sites[k]);
            assert(present(young, old, v.sites[k].addr()) && apart(
                class,
                mdict,
                keys,
                vals,
                v.sites[k].addr(),
            ));
        }
        lemma_stamped(v2, young, old1, class, selector, method, t);
        let r = w.heap;
        lemma_beside(heap, r, young, old1, t, k1);
        lemma_beside(heap, r, young, old1, t, v1);
        lemma_beside(heap, r, young, old1, t, mdict.addr());
        lemma_beside(heap, r, young, old1, t, cl);
        assert(dictionary(r, young, old1, mdict.addr(), k1, v1));
        assert forall|s: Value| #[trigger] r.mdict_find(mdict, s) == found_in(heap, k1, v1, s) by {
            lemma_find(r, young, old1, mdict, k1, v1, s);
            let nn = heap.nslots(k1) as int;
            lemma_index(heap, k1, s, 0, nn);
            lemma_index_same(heap, r, k1, k1, s, 0, nn);
            let j = heap.slot_index(k1, s, 0, nn);
            if j < nn {
                assert(r.slot(v1, j) == heap.slot(v1, j));
            }
        }
        assert forall|s: Value| #[trigger] h.mdict_find(mdict, s) == found_in(h, keys, vals, s) by {
            lemma_find(h, young, old, mdict, keys, vals, s);
        }
        assert forall|s: Value| s != selector implies #[trigger] r.mdict_find(mdict, s)
            == h.mdict_find(mdict, s) by {
            assert(found_in(heap, k1, v1, s) == found_in(h, keys, vals, s));
        }
        assert(w.lookup(index, selector) == (Some(method), 1int)) by {
            lemma_apart_all(r, young, old1, cl, cl);
            assert(heap.slot(cl, BEHAVIOR_METHOD_DICTIONARY as int) == mdict);
            assert(r.slot(cl, BEHAVIOR_METHOD_DICTIONARY as int) == mdict);
            assert(r.words() > 0) by {
                assert(r.plausible(cl));
            }
        }
    }
}

proof fn lemma_prefix_present(young: Seq<usize>, old: Seq<usize>, old1: Seq<usize>, a: int)
    requires
        old.is_prefix_of(old1),
        present(young, old, a),
    ensures
        present(young, old1, a),
{
    if listed(old, a) {
        let k = choose|k: int| 0 <= k < old.len() && #[trigger] old[k] == a;
        assert(old1.subrange(0, old.len() as int)[k] == old[k]);
        assert(old1[k] == a);
    }
}

} // verus!
