//! Classes inherit: a search finds the method of the nearest class up the
//! superclass chain that has one, and handlers handle the classes below
//! theirs.

use crate::heap::HeapView;
use crate::value::{lemma_untag_bits, Value};
use crate::vm::VmView;
use crate::treaty::{
    BEHAVIOR_CLASS_INDEX, BEHAVIOR_METHOD_DICTIONARY, BEHAVIOR_SUPERCLASS, MDICT_KEYS,
    MDICT_NUM_VM_SLOTS, MDICT_VALUES,
};
use vstd::prelude::*;

verus! {

// ---------------------------------------------------------------------------
// Counting
// ---------------------------------------------------------------------------
/// The number of a word among all words of the heap.
spec fn word_number(h: HeapView, a: int) -> int {
    if h.from.has(a) {
        (a - h.from.base) / 8
    } else if h.to.has(a) {
        h.from.mem.len() + (a - h.to.base) / 8
    } else {
        h.from.mem.len() + h.to.mem.len() + (a - h.old.base) / 8
    }
}

/// There are no more different objects than words.
pub(crate) proof fn lemma_fewer_than_words(h: HeapView, objs: Seq<Value>)
    requires
        h.wf(),
        objs.no_duplicates(),
        forall|k: int| 0 <= k < objs.len() ==> h.plausible((#[trigger] objs[k]).addr()),
    ensures
        objs.len() <= h.words(),
{
    let n = h.words() as int;
    let nums = Seq::new(objs.len(), |k: int| word_number(h, objs[k].addr()));
    assert forall|j: int, k: int| 0 <= j < nums.len() && 0 <= k < nums.len() && j != k implies nums[j]
        != nums[k] by {
        let a = objs[j].addr();
        let b = objs[k].addr();
        assert(objs[j] != objs[k]);
        assert(a != b);
        assert(h.plausible(a) && h.plausible(b));
        assert(a % 8 == 0 && b % 8 == 0);
    }
    assert(nums.no_duplicates());
    nums.unique_seq_to_set();
    vstd::set_lib::lemma_int_range(0, n);
    assert forall|x: int| nums.to_set().contains(x) implies vstd::set_lib::set_int_range(
        0,
        n,
    ).contains(x) by {
        let k = choose|k: int| 0 <= k < nums.len() && nums[k] == x;
        let a = objs[k].addr();
        assert(h.plausible(a));
        assert(a % 8 == 0);
    }
    vstd::set_lib::lemma_len_subset(nums.to_set(), vstd::set_lib::set_int_range(0, n));
}

// ---------------------------------------------------------------------------
// Superclass chains
// ---------------------------------------------------------------------------
/// A class and the classes above it, from the class itself up to the one
/// whose superclass is nil.
pub open spec fn lineage(v: VmView, x: Value, chain: Seq<Value>) -> bool {
    &&& v.heap.wf()
    &&& x == (if chain.len() == 0 {
        v.nil()
    } else {
        chain[0]
    })
    &&& forall|k: int| 0 <= k < chain.len() ==> #[trigger] is_link(v, chain, k)
}

/// Class `k` of a chain is a class, and its superclass is the next one of the
/// chain, or nil for the last.
pub open spec fn is_link(v: VmView, chain: Seq<Value>, k: int) -> bool {
    &&& chain[k] != v.nil()
    &&& v.heap.shaped(chain[k].addr(), BEHAVIOR_SUPERCLASS + 1)
    &&& v.heap.slot(chain[k].addr(), BEHAVIOR_SUPERCLASS as int) == (if k + 1 < chain.len() {
        chain[k + 1]
    } else {
        v.nil()
    })
}

/// No class is above itself.
proof fn lemma_no_loop(v: VmView, x: Value, chain: Seq<Value>, i: int, j: int)
    requires
        lineage(v, x, chain),
        0 <= i < j < chain.len(),
    ensures
        chain[i] != chain[j],
    decreases chain.len() - j,
{
    if chain[i] == chain[j] {
        assert(is_link(v, chain, i) && is_link(v, chain, i + 1) && is_link(v, chain, j));
        if j + 1 < chain.len() {
            lemma_no_loop(v, x, chain, i + 1, j + 1);
        }
    }
}

/// The chain above a class has no more classes than the heap has words.
pub(crate) proof fn lemma_lineage(v: VmView, x: Value, chain: Seq<Value>)
    requires
        lineage(v, x, chain),
    ensures
        chain.no_duplicates(),
        chain.len() <= v.heap.words(),
{
    assert forall|i: int, j: int|
        0 <= i < chain.len() && 0 <= j < chain.len() && i != j implies chain[i] != chain[j] by {
        if i < j {
            lemma_no_loop(v, x, chain, i, j);
        } else {
            lemma_no_loop(v, x, chain, j, i);
        }
    }
    assert forall|k: int| 0 <= k < chain.len() implies v.heap.plausible(
        (#[trigger] chain[k]).addr(),
    ) by {
        assert(is_link(v, chain, k));
    }
    lemma_fewer_than_words(v.heap, chain);
}

/// What is above a class in a chain is the chain of that class.
proof fn lemma_upper_part(v: VmView, x: Value, chain: Seq<Value>, k: int)
    requires
        lineage(v, x, chain),
        0 <= k < chain.len(),
    ensures
        lineage(v, chain[k], chain.skip(k)),
{
    let up = chain.skip(k);
    assert forall|i: int| 0 <= i < up.len() implies #[trigger] is_link(v, up, i) by {
        assert(is_link(v, chain, k + i));
        assert(up[i] == chain[k + i]);
        if i + 1 < up.len() {
            assert(up[i + 1] == chain[k + i + 1]);
        }
    }
}

// ---------------------------------------------------------------------------
// Methods
// ---------------------------------------------------------------------------
/// The method dictionary of a class.
pub open spec fn dictionary(v: VmView, c: Value) -> Value {
    v.heap.slot(c.addr(), BEHAVIOR_METHOD_DICTIONARY as int)
}

/// The array of the selectors of a class.
pub open spec fn selectors(v: VmView, c: Value) -> int {
    v.heap.slot(dictionary(v, c).addr(), MDICT_KEYS as int).addr()
}

/// The array of the methods of a class.
pub open spec fn methods(v: VmView, c: Value) -> int {
    v.heap.slot(dictionary(v, c).addr(), MDICT_VALUES as int).addr()
}

/// A class without a method dictionary, or with one whose arrays of selectors
/// and methods are as long as each other.
pub open spec fn has_dictionary(v: VmView, c: Value) -> bool {
    &&& v.heap.shaped(c.addr(), BEHAVIOR_METHOD_DICTIONARY + 1)
    &&& dictionary(v, c) != v.nil() ==> {
        &&& v.heap.shaped(dictionary(v, c).addr(), MDICT_NUM_VM_SLOTS as int)
        &&& v.heap.whole(selectors(v, c))
        &&& v.heap.whole(methods(v, c))
        &&& v.heap.nslots(methods(v, c)) == v.heap.nslots(selectors(v, c))
    }
}

/// Entry `i` of the method dictionary of a class is for a selector.
pub open spec fn entry_for(v: VmView, c: Value, selector: Value, i: int) -> bool {
    &&& dictionary(v, c) != v.nil()
    &&& 0 <= i < v.heap.nslots(selectors(v, c))
    &&& v.heap.slot(selectors(v, c), i) == selector
}

/// A class has a method of its own for a selector.
pub open spec fn has_own(v: VmView, c: Value, selector: Value) -> bool {
    exists|i: int| entry_for(v, c, selector, i)
}

/// A class's own method for a selector: that of the first entry for it.
pub open spec fn own_method(v: VmView, c: Value, selector: Value, method: Value) -> bool {
    exists|i: int| #[trigger]
        entry_for(v, c, selector, i) && method == v.heap.slot(methods(v, c), i) && forall|j: int|
            0 <= j < i ==> !entry_for(v, c, selector, j)
}

/// A method is that of the first class of a chain that has one for a
/// selector, and there is none where no class of the chain has one.
pub open spec fn nearest_method(
    v: VmView,
    chain: Seq<Value>,
    selector: Value,
    found: Option<Value>,
) -> bool {
    match found {
        Some(m) => exists|k: int|
            0 <= k < chain.len() && #[trigger] own_method(v, chain[k], selector, m) && forall|j: int|
                0 <= j < k ==> !has_own(v, #[trigger] chain[j], selector),
        None => forall|j: int|
            0 <= j < chain.len() ==> !has_own(v, #[trigger] chain[j], selector),
    }
}

/// Every class of a chain has a dictionary or none.
pub open spec fn all_have_dictionaries(v: VmView, chain: Seq<Value>) -> bool {
    forall|k: int| 0 <= k < chain.len() ==> has_dictionary(v, #[trigger] chain[k])
}

/// The first slot that holds a value.
proof fn lemma_first_slot(h: HeapView, o: int, x: Value, i: int, n: int)
    requires
        0 <= i <= n,
    ensures
        i <= h.slot_index(o, x, i, n) <= n,
        h.slot_index(o, x, i, n) < n ==> h.slot(o, h.slot_index(o, x, i, n)) == x,
        forall|j: int| i <= j < h.slot_index(o, x, i, n) ==> #[trigger] h.slot(o, j) != x,
    decreases n - i,
{
    if i < n && h.slot(o, i) != x {
        lemma_first_slot(h, o, x, i + 1, n);
    }
}

/// A dictionary finds what is in it.
proof fn lemma_own(v: VmView, c: Value, selector: Value)
    requires
        has_dictionary(v, c),
    ensures
        ({
            let found = if dictionary(v, c) == v.nil() {
                None
            } else {
                v.heap.mdict_find(dictionary(v, c), selector)
            };
            match found {
                Some(m) => own_method(v, c, selector, m),
                None => !has_own(v, c, selector),
            }
        }),
{
    if dictionary(v, c) != v.nil() {
        let keys = selectors(v, c);
        let n = v.heap.nslots(keys) as int;
        lemma_first_slot(v.heap, keys, selector, 0, n);
        let i = v.heap.slot_index(keys, selector, 0, n);
        if i < n {
            assert(entry_for(v, c, selector, i));
        }
    }
}

proof fn lemma_chain_finds(
    v: VmView,
    chain: Seq<Value>,
    k: int,
    x: Value,
    selector: Value,
    fuel: nat,
)
    requires
        lineage(v, if chain.len() == 0 { v.nil() } else { chain[0] }, chain),
        all_have_dictionaries(v, chain),
        0 <= k <= chain.len(),
        x == (if k < chain.len() {
            chain[k]
        } else {
            v.nil()
        }),
        chain.len() - k <= fuel,
        forall|j: int| 0 <= j < k ==> !has_own(v, #[trigger] chain[j], selector),
    ensures
        nearest_method(v, chain, selector, v.lookup_chain(x, selector, fuel).0),
        v.lookup_chain(x, selector, fuel).0 is None ==> v.lookup_chain(x, selector, fuel).1
            == chain.len() - k,
        v.lookup_chain(x, selector, fuel).0 is Some ==> ({
            let n = k + v.lookup_chain(x, selector, fuel).1;
            &&& k < n <= chain.len()
            &&& own_method(v, chain[n - 1], selector, v.lookup_chain(x, selector, fuel).0->0)
            &&& forall|j: int| 0 <= j < n - 1 ==> !has_own(v, #[trigger] chain[j], selector)
        }),
    decreases fuel,
{
    if k < chain.len() {
        assert(has_dictionary(v, chain[k]));
        assert(is_link(v, chain, k));
        lemma_own(v, chain[k], selector);
        let found = if dictionary(v, x) == v.nil() {
            None
        } else {
            v.heap.mdict_find(dictionary(v, x), selector)
        };
        if found is None {
            let up = v.heap.slot(x.addr(), BEHAVIOR_SUPERCLASS as int);
            lemma_chain_finds(v, chain, k + 1, up, selector, (fuel - 1) as nat);
        } else {
            assert(own_method(v, chain[k], selector, found->0));
        }
    }
}

/// A search for a selector finds the method of the nearest class, from the
/// class itself up to the one whose superclass is nil, that has one of its
/// own; it finds none only where no class of the whole chain has one. It
/// visits the classes up to the one that has the method.
pub proof fn law_search_finds_nearest(
    v: VmView,
    class: u32,
    selector: Value,
    chain: Seq<Value>,
)
    requires
        class < v.class_table.len(),
        lineage(v, v.class_table[class as int], chain),
        all_have_dictionaries(v, chain),
    ensures
        nearest_method(v, chain, selector, v.lookup(class, selector).0),
        v.lookup(class, selector).0 is None ==> v.lookup(class, selector).1 == chain.len(),
        v.lookup(class, selector).0 is Some ==> ({
            let n = v.lookup(class, selector).1;
            0 < n <= chain.len() && has_own(v, chain[n - 1], selector) && forall|j: int|
                0 <= j < n - 1 ==> !has_own(v, #[trigger] chain[j], selector)
        }),
{
    lemma_lineage(v, v.class_table[class as int], chain);
    lemma_chain_finds(v, chain, 0, v.class_table[class as int], selector, v.heap.words());
}

/// The nearest method is one.
pub(crate) proof fn lemma_nearest_is_one(
    v: VmView,
    chain: Seq<Value>,
    selector: Value,
    x: Option<Value>,
    y: Option<Value>,
)
    requires
        nearest_method(v, chain, selector, x),
        nearest_method(v, chain, selector, y),
    ensures
        x == y,
{
    if let Some(a) = x {
        let k = choose|k: int|
            0 <= k < chain.len() && #[trigger] own_method(v, chain[k], selector, a) && forall|j: int|
                0 <= j < k ==> !has_own(v, #[trigger] chain[j], selector);
        lemma_own_has(v, chain[k], selector, a);
        if let Some(b) = y {
            let l = choose|l: int|
                0 <= l < chain.len() && #[trigger] own_method(v, chain[l], selector, b) && forall|
                    j: int,
                | 0 <= j < l ==> !has_own(v, #[trigger] chain[j], selector);
            lemma_own_has(v, chain[l], selector, b);
            assert(k == l);
            let i = choose|i: int| #[trigger]
                entry_for(v, chain[k], selector, i) && a == v.heap.slot(methods(v, chain[k]), i)
                    && forall|j: int| 0 <= j < i ==> !entry_for(v, chain[k], selector, j);
            let m = choose|m: int| #[trigger]
                entry_for(v, chain[k], selector, m) && b == v.heap.slot(methods(v, chain[k]), m)
                    && forall|j: int| 0 <= j < m ==> !entry_for(v, chain[k], selector, j);
            assert(i == m);
        }
    } else if let Some(b) = y {
        let l = choose|l: int|
            0 <= l < chain.len() && #[trigger] own_method(v, chain[l], selector, b) && forall|
                j: int,
            | 0 <= j < l ==> !has_own(v, #[trigger] chain[j], selector);
        lemma_own_has(v, chain[l], selector, b);
    }
}

proof fn lemma_own_has(v: VmView, c: Value, selector: Value, method: Value)
    requires
        own_method(v, c, selector, method),
    ensures
        has_own(v, c, selector),
{
}

/// A class without a method of its own for a selector answers what its
/// superclass answers.
pub proof fn law_class_inherits(
    v: VmView,
    class: u32,
    above: u32,
    selector: Value,
    chain: Seq<Value>,
)
    requires
        class < v.class_table.len(),
        above < v.class_table.len(),
        lineage(v, v.class_table[class as int], chain),
        all_have_dictionaries(v, chain),
        v.class_table[class as int] != v.nil(),
        v.class_table[above as int] == v.heap.slot(
            v.class_table[class as int].addr(),
            BEHAVIOR_SUPERCLASS as int,
        ),
        !has_own(v, v.class_table[class as int], selector),
    ensures
        v.lookup(class, selector).0 == v.lookup(above, selector).0,
{
    let up = chain.skip(1);
    let x = v.class_table[above as int];
    assert(chain[0] == v.class_table[class as int]);
    assert(is_link(v, chain, 0));
    assert(lineage(v, x, up)) by {
        if chain.len() > 1 {
            lemma_upper_part(v, chain[0], chain, 1);
        }
    }
    assert forall|k: int| 0 <= k < up.len() implies has_dictionary(v, #[trigger] up[k]) by {
        assert(has_dictionary(v, chain[k + 1]));
    }
    law_search_finds_nearest(v, class, selector, chain);
    law_search_finds_nearest(v, above, selector, up);
    let y = v.lookup(above, selector).0;
    lemma_nearest_below(v, chain, selector, y);
    lemma_nearest_is_one(v, chain, selector, v.lookup(class, selector).0, y);
}

/// What is nearest above a class without a method of its own is nearest.
proof fn lemma_nearest_below(v: VmView, chain: Seq<Value>, selector: Value, found: Option<Value>)
    requires
        chain.len() > 0,
        !has_own(v, chain[0], selector),
        nearest_method(v, chain.skip(1), selector, found),
    ensures
        nearest_method(v, chain, selector, found),
{
    let up = chain.skip(1);
    match found {
        Some(m) => {
            let k = choose|k: int|
                0 <= k < up.len() && #[trigger] own_method(v, up[k], selector, m) && forall|j: int|
                    0 <= j < k ==> !has_own(v, #[trigger] up[j], selector);
            assert(own_method(v, chain[k + 1], selector, m));
            assert forall|j: int| 0 <= j < k + 1 implies !has_own(
                v,
                #[trigger] chain[j],
                selector,
            ) by {
                if j > 0 {
                    assert(up[j - 1] == chain[j]);
                }
            }
        },
        None => {
            assert forall|j: int| 0 <= j < chain.len() implies !has_own(
                v,
                #[trigger] chain[j],
                selector,
            ) by {
                if j > 0 {
                    assert(up[j - 1] == chain[j]);
                }
            }
        },
    }
}

/// A super send searches the chain above the class that it names: it finds
/// the method of the nearest class above it that has one.
pub proof fn law_super_search_finds_nearest(v: VmView, c: Value, selector: Value, chain: Seq<Value>)
    requires
        lineage(v, c, chain),
        all_have_dictionaries(v, chain),
        chain.len() > 1 ==> {
            let s = v.heap.slot(chain[1].addr(), BEHAVIOR_CLASS_INDEX as int).int_value();
            &&& v.heap.shaped(chain[1].addr(), BEHAVIOR_CLASS_INDEX + 1)
            &&& 0 <= s < v.class_table.len() <= u32::MAX
            &&& v.class_table[s as int] == chain[1]
        },
        chain.len() > 0,
    ensures
        nearest_method(v, chain.skip(1), selector, v.lookup_above(c, selector)),
{
    let up = chain.skip(1);
    assert(chain[0] == c);
    assert(is_link(v, chain, 0));
    if chain.len() > 1 {
        let s = v.heap.slot(chain[1].addr(), BEHAVIOR_CLASS_INDEX as int).int_value();
        lemma_upper_part(v, c, chain, 1);
        assert(is_link(v, chain, 1));
        assert forall|k: int| 0 <= k < up.len() implies has_dictionary(v, #[trigger] up[k]) by {
            assert(has_dictionary(v, chain[k + 1]));
        }
        law_search_finds_nearest(v, s as u32, selector, up);
    }
}

// ---------------------------------------------------------------------------
// Handlers
// ---------------------------------------------------------------------------
proof fn lemma_handles(
    v: VmView,
    stored: Value,
    chain: Seq<Value>,
    k: int,
    x: Value,
    fuel: nat,
)
    requires
        lineage(v, if chain.len() == 0 { v.nil() } else { chain[0] }, chain),
        0 <= k <= chain.len(),
        x == (if k < chain.len() {
            chain[k]
        } else {
            v.nil()
        }),
        chain.len() - k <= fuel,
    ensures
        v.handles(stored, x, fuel) <==> exists|i: int| k <= i < chain.len() && chain[i] == stored,
    decreases fuel,
{
    if k < chain.len() {
        assert(is_link(v, chain, k));
        lemma_untag_bits(x);
        assert(v.heap.plausible(x.addr()));
        if x != stored {
            let up = v.field(x, BEHAVIOR_SUPERCLASS as int);
            assert(up == v.heap.slot(x.addr(), BEHAVIOR_SUPERCLASS as int)) by {
                reveal(VmView::field);
            }
            lemma_handles(v, stored, chain, k + 1, up, (fuel - 1) as nat);
            if v.handles(stored, up, (fuel - 1) as nat) {
                let i = choose|i: int| k + 1 <= i < chain.len() && chain[i] == stored;
                assert(k <= i < chain.len() && chain[i] == stored);
            }
            if exists|i: int| k <= i < chain.len() && chain[i] == stored {
                let i = choose|i: int| k <= i < chain.len() && chain[i] == stored;
                assert(k + 1 <= i < chain.len() && chain[i] == stored);
            }
        } else {
            assert(k <= k < chain.len() && chain[k] == stored);
        }
    }
}

/// A handler for a class handles an exception class exactly if it is that
/// class or one above it.
pub proof fn law_handles_what_inherits(v: VmView, stored: Value, exc: Value, chain: Seq<Value>)
    requires
        lineage(v, exc, chain),
    ensures
        v.handles(stored, exc, v.heap.words()) <==> chain.contains(stored),
{
    lemma_lineage(v, exc, chain);
    lemma_handles(v, stored, chain, 0, exc, v.heap.words());
}

/// Handling is transitive: what a handler for a class handles, a handler for
/// a class above it handles too.
pub proof fn law_handling_is_transitive(v: VmView, c: Value, d: Value, e: Value, chain: Seq<Value>)
    requires
        lineage(v, e, chain),
        v.handles(c, d, v.heap.words()),
        v.handles(d, e, v.heap.words()),
    ensures
        v.handles(c, e, v.heap.words()),
{
    law_handles_what_inherits(v, d, e, chain);
    let k = choose|k: int| 0 <= k < chain.len() && chain[k] == d;
    lemma_upper_part(v, e, chain, k);
    law_handles_what_inherits(v, c, d, chain.skip(k));
    let i = choose|i: int| 0 <= i < chain.skip(k).len() && chain.skip(k)[i] == c;
    assert(chain[k + i] == c);
    law_handles_what_inherits(v, c, e, chain);
}

/// A class handles itself, and a handler for the superclass handles it.
pub proof fn law_superclass_handles(v: VmView, e: Value, chain: Seq<Value>)
    requires
        lineage(v, e, chain),
        e != v.nil(),
    ensures
        v.handles(e, e, v.heap.words()),
        chain.len() > 1 ==> v.handles(
            v.heap.slot(e.addr(), BEHAVIOR_SUPERCLASS as int),
            e,
            v.heap.words(),
        ),
{
    assert(chain[0] == e);
    assert(is_link(v, chain, 0));
    law_handles_what_inherits(v, e, e, chain);
    if chain.len() > 1 {
        law_handles_what_inherits(v, chain[1], e, chain);
    }
}

} // verus!
