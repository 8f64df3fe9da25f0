//! The object graph, and what a young collection does to it.
//!
//! A heap is sound when objects fill its spaces without gaps, every pointer
//! leads to one of them, and every old object that points young is in the
//! remembered set. A collection of a sound heap moves objects and follows
//! every pointer: what can be reached keeps its fields, its identity and its
//! links.

use crate::heap::{Header, HeapView, SpaceView};
use crate::scavenge::ScavView;
use crate::value::Value;
use vstd::prelude::*;

verus! {

// ---------------------------------------------------------------------------
// Objects one after the other
// ---------------------------------------------------------------------------
/// One past the last address of the object at `o`.
pub open spec fn fin(h: HeapView, o: int) -> int {
    o + 8 + 8 * h.nslots(o)
}

/// `o` is in a list of addresses.
pub open spec fn listed(objs: Seq<usize>, o: int) -> bool {
    exists|i: int| 0 <= i < objs.len() && #[trigger] objs[i] == o
}

/// Whole objects, one after the other, that fill `[p, top)`.
pub open spec fn tiles(h: HeapView, objs: Seq<usize>, p: int, top: int) -> bool {
    &&& objs.len() == 0 ==> p == top
    &&& objs.len() > 0 ==> h.storage_start(objs[0] as int) == p && fin(h, objs.last() as int)
        == top
    &&& forall|i: int|
        0 <= i < objs.len() ==> h.whole((#[trigger] objs[i]) as int) && p <= h.storage_start(
            objs[i] as int,
        ) && fin(h, objs[i] as int) <= top
    &&& forall|i: int, j: int|
        0 <= i < j < objs.len() ==> fin(h, (#[trigger] objs[i]) as int) <= h.storage_start(
            (#[trigger] objs[j]) as int,
        )
    &&& forall|i: int, j: int|
        0 <= i < objs.len() && 0 <= j < objs.len() && j == i + 1 ==> fin(
            h,
            (#[trigger] objs[i]) as int,
        ) == h.storage_start((#[trigger] objs[j]) as int)
}

/// Two heaps agree on the words that tell the size of the object at `o`.
pub open spec fn same_size(h: HeapView, h1: HeapView, o: int) -> bool {
    &&& h1.hdr(o).nslots_field() == h.hdr(o).nslots_field()
    &&& h.has_over(o) ==> h1.read(o - 8) == h.read(o - 8)
}

/// Objects whose sizes are kept still fill their region.
pub(crate) proof fn lemma_tiles_kept(h: HeapView, h1: HeapView, objs: Seq<usize>, p: int, top: int)
    requires
        tiles(h, objs, p, top),
        h1.layout() == h.layout(),
        forall|i: int| 0 <= i < objs.len() ==> same_size(h, h1, (#[trigger] objs[i]) as int),
    ensures
        tiles(h1, objs, p, top),
{
    assert forall|i: int| 0 <= i < objs.len() implies h1.whole((#[trigger] objs[i]) as int)
        && h1.nslots(objs[i] as int) == h.nslots(objs[i] as int) && h1.storage_start(
        objs[i] as int,
    ) == h.storage_start(objs[i] as int) by {
        assert(same_size(h, h1, objs[i] as int));
    }
}

/// One more object after the others.
#[verifier::rlimit(60)]
pub(crate) proof fn lemma_tiles_more(h: HeapView, objs: Seq<usize>, p: int, top: int, o: usize)
    requires
        tiles(h, objs, p, top),
        h.whole(o as int),
        h.storage_start(o as int) == top,
        p <= top,
    ensures
        tiles(h, objs.push(o), p, fin(h, o as int)),
{
    let t = objs.push(o);
    assert(t.last() == o);
    if objs.len() > 0 {
        assert(t[0] == objs[0]);
        assert(objs[objs.len() - 1] == objs.last());
    }
    assert forall|i: int| 0 <= i < t.len() implies h.whole((#[trigger] t[i]) as int) && p
        <= h.storage_start(t[i] as int) && fin(h, t[i] as int) <= fin(h, o as int) by {
        if i < objs.len() {
            assert(t[i] == objs[i]);
        }
    }
    assert forall|i: int, j: int| 0 <= i < j < t.len() implies fin(h, (#[trigger] t[i]) as int)
        <= h.storage_start((#[trigger] t[j]) as int) by {
        assert(t[i] == objs[i]);
        if j < objs.len() {
            assert(t[j] == objs[j]);
        }
    }
    assert forall|i: int, j: int|
        0 <= i < t.len() && 0 <= j < t.len() && j == i + 1 implies fin(
        h,
        (#[trigger] t[i]) as int,
    ) == h.storage_start((#[trigger] t[j]) as int) by {
        assert(t[i] == objs[i]);
        if j < objs.len() {
            assert(t[j] == objs[j]);
        } else {
            assert(objs[i] == objs.last());
        }
    }
}

// ---------------------------------------------------------------------------
// Words
// ---------------------------------------------------------------------------
/// A store changes the word at its address alone.
pub(crate) proof fn lemma_reads_after_write(h: HeapView, a: int, w: u64)
    requires
        h.wf(),
        h.plausible(a),
    ensures
        h.write(a, w).read(a) == w,
        forall|x: int| #[trigger] h.write(a, w).read(x) == h.read(x) || x == a || !h.plausible(x),
        h.write(a, w).layout() == h.layout(),
        h.write(a, w).wf(),
        h.write(a, w).from.alloc == h.from.alloc,
        h.write(a, w).to.alloc == h.to.alloc,
        h.write(a, w).old.alloc == h.old.alloc,
        h.write(a, w).ssb == h.ssb,
{
    reveal(HeapView::read);
    reveal(HeapView::write);
}

/// Facts about the bits of a forwarding word and of a copy's header.
pub(crate) proof fn lemma_forward_bits(n: u64, hd: u64, age: u64)
    requires
        age <= 7,
    ensures
        n % 8 == 0 ==> (n | 1) & 1 == 1 && (n | 1) & !1u64 == n && n & 7 == 0,
        ((hd & 0x84) | (age << 3u64)) & 1 == 0,
        ((hd & 0x84) | (age << 3u64)) <= 255,
        ((hd & 0x84) | (age << 3u64)) & 0x84 == hd & 0x84,
{
    assert((n % 8 == 0 ==> (n | 1) & 1 == 1 && (n | 1) & !1u64 == n && n & 7 == 0) && (((hd & 0x84)
        | (age << 3u64)) & 1 == 0) && (((hd & 0x84) | (age << 3u64)) <= 255) && (((hd & 0x84) | (age
        << 3u64)) & 0x84 == hd & 0x84)) by (bit_vector)
        requires
            age <= 7,
    ;
}

/// A header's low bit is the low bit of its collector byte.
pub(crate) proof fn lemma_low_bit(w: u64)
    ensures
        (w & 0xff) & 1 == w & 1,
        w & 0xff == 0 ==> w & 1 == 0,
{
    assert((w & 0xff) & 1 == w & 1 && (w & 0xff == 0 ==> w & 1 == 0)) by (bit_vector);
}

/// The same object but for what the collector keeps in its byte of the
/// header: class, identity hash, format and size, and whether it is
/// immutable or pinned.
pub open spec fn same_fields(a: Header, b: Header) -> bool {
    &&& a.class_field() == b.class_field()
    &&& a.hash_field() == b.hash_field()
    &&& a.format_field() == b.format_field()
    &&& a.nslots_field() == b.nslots_field()
    &&& a.gc_field() & 0x84 == b.gc_field() & 0x84
}

/// A copy's header has the fields of the object's.
pub(crate) proof fn lemma_copy_header(hd: Header)
    ensures
        same_fields(hd, crate::scavenge::copy_header(hd)),
        crate::scavenge::copy_header(hd).0 & 1 == 0,
{
    let age = crate::scavenge::next_age(hd);
    assert(age <= 7);
    let bits = (hd.gc_field() & 0x84) | (age << 3u64);
    lemma_forward_bits(0, hd.gc_field(), age);
    crate::heap::lemma_header_update(hd, 0, bits);
    lemma_low_bit(crate::scavenge::copy_header(hd).0);
}

// ---------------------------------------------------------------------------
// One copy
// ---------------------------------------------------------------------------
/// The young object at `a` was copied to `n`: the forwarding word, the
/// copy's words, and nothing else.
pub open spec fn copied_to(h: HeapView, h1: HeapView, a: int, n: int) -> bool {
    let lo = h.storage_start(a) - a + n;
    let hi = fin(h, a) - a + n;
    &&& h1.layout() == h.layout()
    &&& h1.wf()
    &&& n % 8 == 0
    &&& h1.read(a) == (n as u64) | 1
    &&& h1.read(n) == crate::scavenge::copy_header(h.hdr(a)).0
    &&& forall|x: int|
        lo <= x < hi && x % 8 == 0 && x != n ==> #[trigger] h1.read(x) == h.read(x - n + a)
    &&& forall|x: int|
        h.plausible(x) && x != a && !(lo <= x < hi) ==> #[trigger] h1.read(x) == h.read(x)
    &&& h1.ssb == h.ssb
    &&& h1.from.alloc == h.from.alloc
    &&& {
        ||| h1.old.alloc == h.old.alloc && lo == h.to.top() && hi == h1.to.top()
        ||| h1.to.alloc == h.to.alloc && lo == h.old.top() && hi == h1.old.top()
    }
}

/// The words of a space after some were placed at its top and one of those
/// replaced.
#[verifier::rlimit(60)]
pub(crate) proof fn lemma_pasted(d: SpaceView, words: Seq<u64>, n: int, w: u64)
    requires
        d.wf(),
        d.fits(words.len() as int),
        n % 8 == 0,
        d.top() <= n < d.top() + 8 * words.len(),
    ensures
        ({
            let d1 = d.pasted(words).put(n, w);
            &&& d1.base == d.base
            &&& d1.mem.len() == d.mem.len()
            &&& d1.alloc == d.alloc + words.len()
            &&& d1.wf()
            &&& d1.at(n) == w
            &&& forall|x: int|
                x % 8 == 0 && x != n && d.top() <= x < d1.top() ==> #[trigger] d1.at(x) == words[(x
                    - d.top()) / 8]
            &&& forall|x: int|
                x % 8 == 0 && d.has(x) && !(d.top() <= x < d1.top()) ==> #[trigger] d1.at(x)
                    == d.at(x)
        }),
{
    let d0 = d.pasted(words);
    let d1 = d0.put(n, w);
    assert forall|x: int| x % 8 == 0 && x != n && d.top() <= x < d1.top() implies #[trigger] d1.at(
        x,
    ) == words[(x - d.top()) / 8] by {
        let k = (x - d.base) / 8;
        assert(k == d.alloc + (x - d.top()) / 8);
        assert(k != (n - d.base) / 8);
        assert(d0.mem[k] == words[k - d.alloc]);
    }
    assert forall|x: int|
        x % 8 == 0 && d.has(x) && !(d.top() <= x < d1.top()) implies #[trigger] d1.at(x) == d.at(
        x,
    ) by {
        let k = (x - d.base) / 8;
        assert(!(d.alloc <= k < d.alloc + words.len()));
        assert(k != (n - d.base) / 8);
        assert(d0.mem[k] == d.mem[k]);
    }
}

/// The words of a space after a store.
pub(crate) proof fn lemma_put(d: SpaceView, a: int, w: u64)
    requires
        d.wf(),
        d.has(a),
        a % 8 == 0,
    ensures
        d.put(a, w).at(a) == w,
        d.put(a, w).wf(),
        d.put(a, w).limit() == d.limit(),
        forall|x: int|
            x % 8 == 0 && x != a && d.has(x) ==> #[trigger] d.put(a, w).at(x) == d.at(x),
{
}

/// The words of the young object at `a`, as addresses give them.
pub(crate) proof fn lemma_young_words(h: HeapView, a: int)
    requires
        h.wf(),
        h.copyable(a),
        h.from.base <= h.storage_start(a),
        fin(h, a) <= h.from.limit(),
    ensures
        8 * h.young_words(a).len() == fin(h, a) - h.storage_start(a),
        h.young_words(a).len() > 0,
        forall|x: int|
            x % 8 == 0 && h.storage_start(a) <= x < fin(h, a) ==> #[trigger] h.from.at(x)
                == h.young_words(a)[(x - h.storage_start(a)) / 8],
{
    let st = h.storage_start(a);
    assert(st % 8 == 0);
    assert(h.footprint(a) == fin(h, a) - st);
    assert forall|x: int| x % 8 == 0 && st <= x < fin(h, a) implies #[trigger] h.from.at(x)
        == h.young_words(a)[(x - st) / 8] by {
        assert((x - h.from.base) / 8 == (st - h.from.base) / 8 + (x - st) / 8);
    }
}

/// What copying one object does.
#[verifier::rlimit(60)]
pub(crate) proof fn lemma_evacuated(s: ScavView, a: int, threshold: u64)
    requires
        s.heap.wf(),
        s.heap.copyable(a),
        s.heap.from.base <= s.heap.storage_start(a),
        fin(s.heap, a) <= s.heap.from.limit(),
    ensures
        s.evacuate(a, threshold) matches Some((s1, n)) ==> {
            &&& copied_to(s.heap, s1.heap, a, n)
            &&& s1.work == s.work.push(n as usize)
            &&& s1.tenured == s.tenured || s1.tenured == s.tenured.push(n as usize)
            &&& s1.tenured == s.tenured ==> s1.heap.old.alloc == s.heap.old.alloc
            &&& s1.tenured == s.tenured.push(n as usize) ==> s1.heap.to.alloc == s.heap.to.alloc
            &&& 0 <= n <= usize::MAX
        },
{
    let h = s.heap;
    let words = h.young_words(a);
    let st = h.storage_start(a);
    lemma_young_words(h, a);
    if let Some((s1, n)) = s.evacuate(a, threshold) {
        let to_old = s.tenures(a, threshold);
        let dest = if to_old {
            h.old
        } else {
            h.to
        };
        assert(n == dest.top() + (a - st));
        lemma_pasted(dest, words, n, crate::scavenge::copy_header(h.hdr(a)).0);
        lemma_put(h.from, a, (n as u64) | 1);
        if to_old {
            lemma_copied_old(h, s1.heap, a, n, words);
        } else {
            lemma_copied_spare(h, s1.heap, a, n, words);
        }
        if s1.tenured == s.tenured.push(n as usize) {
            assert(s.tenured.push(n as usize).len() == s.tenured.len() + 1);
        }
    }
}

#[verifier::rlimit(60)]
#[verifier::spinoff_prover]
pub(crate) proof fn lemma_copied_old(h: HeapView, h1: HeapView, a: int, n: int, words: Seq<u64>)
    requires
        h.wf(),
        h.plausible(a),
        h.young(a),
        h.from.base <= h.storage_start(a),
        fin(h, a) <= h.from.limit(),
        n == h.old.top() + (a - h.storage_start(a)),
        8 * words.len() == fin(h, a) - h.storage_start(a),
        words.len() > 0,
        h.old.fits(words.len() as int),
        forall|x: int|
            x % 8 == 0 && h.storage_start(a) <= x < fin(h, a) ==> #[trigger] h.from.at(x)
                == words[(x - h.storage_start(a)) / 8],
        h1 == (HeapView {
            from: h.from.put(a, (n as u64) | 1),
            old: h.old.pasted(words).put(n, crate::scavenge::copy_header(h.hdr(a)).0),
            ..h
        }),
    ensures
        copied_to(h, h1, a, n),
        h1.to.alloc == h.to.alloc,
{
    reveal(HeapView::read);
    lemma_pasted(h.old, words, n, crate::scavenge::copy_header(h.hdr(a)).0);
    lemma_put(h.from, a, (n as u64) | 1);
    let st = h.storage_start(a);
    let lo = h.old.top();
    assert forall|x: int|
        lo <= x < lo + 8 * words.len() && x % 8 == 0 && x != n implies #[trigger] h1.read(x)
        == h.read(x - n + a) by {
        let y = x - n + a;
        assert(y - st == x - lo);
        assert(h.from.at(y) == words[(y - st) / 8]);
        assert(h1.old.at(x) == words[(x - lo) / 8]);
    }
    assert forall|x: int|
        h.plausible(x) && x != a && !(lo <= x < lo + 8 * words.len()) implies #[trigger] h1.read(x)
        == h.read(x) by {
        if h.from.has(x) {
            assert(h1.from.at(x) == h.from.at(x));
        } else if !h.to.has(x) {
            assert(h1.old.at(x) == h.old.at(x));
        }
    }
}

#[verifier::rlimit(100)]
#[verifier::spinoff_prover]
pub(crate) proof fn lemma_copied_spare(h: HeapView, h1: HeapView, a: int, n: int, words: Seq<u64>)
    requires
        h.wf(),
        h.plausible(a),
        h.young(a),
        h.from.base <= h.storage_start(a),
        fin(h, a) <= h.from.limit(),
        n == h.to.top() + (a - h.storage_start(a)),
        8 * words.len() == fin(h, a) - h.storage_start(a),
        words.len() > 0,
        h.to.fits(words.len() as int),
        forall|x: int|
            x % 8 == 0 && h.storage_start(a) <= x < fin(h, a) ==> #[trigger] h.from.at(x)
                == words[(x - h.storage_start(a)) / 8],
        h1 == (HeapView {
            from: h.from.put(a, (n as u64) | 1),
            to: h.to.pasted(words).put(n, crate::scavenge::copy_header(h.hdr(a)).0),
            ..h
        }),
    ensures
        copied_to(h, h1, a, n),
        h1.old.alloc == h.old.alloc,
{
    reveal(HeapView::read);
    lemma_pasted(h.to, words, n, crate::scavenge::copy_header(h.hdr(a)).0);
    lemma_put(h.from, a, (n as u64) | 1);
    let st = h.storage_start(a);
    let lo = h.to.top();
    assert forall|x: int|
        lo <= x < lo + 8 * words.len() && x % 8 == 0 && x != n implies #[trigger] h1.read(x)
        == h.read(x - n + a) by {
        let y = x - n + a;
        assert(y - st == x - lo);
        assert(h.from.at(y) == words[(y - st) / 8]);
        assert(h1.to.at(x) == words[(x - lo) / 8]);
    }
    assert forall|x: int|
        h.plausible(x) && x != a && !(lo <= x < lo + 8 * words.len()) implies #[trigger] h1.read(x)
        == h.read(x) by {
        if h.from.has(x) {
            assert(h1.from.at(x) == h.from.at(x));
        } else if h.to.has(x) {
            assert(h1.to.at(x) == h.to.at(x));
        }
    }
}

// ---------------------------------------------------------------------------
// Sound heaps
// ---------------------------------------------------------------------------
/// A heap, the objects of its young and old spaces, and which of the young
/// ones count: the others are garbage, and nothing is said of their slots.
#[verifier::ext_equal]
pub struct Objects {
    pub heap: HeapView,
    pub young: Seq<usize>,
    pub old: Seq<usize>,
    pub live: Set<int>,
}

/// The words before and at a header can be told apart: a header has a class
/// index, an overflow word does not reach the class bits.
pub open spec fn headed(h: HeapView, a: int) -> bool {
    &&& h.hdr(a).class_field() != 0
    &&& h.has_over(a) ==> h.read(a - 8) >> 42u64 == 0
}

impl Objects {
    /// There is a young object at `a` that counts.
    pub open spec fn alive(self, a: int) -> bool {
        listed(self.young, a) && self.live.contains(a)
    }

    /// There is an object at `a` that counts.
    pub open spec fn has(self, a: int) -> bool {
        self.alive(a) || listed(self.old, a)
    }

    /// There is an object at `a`.
    pub open spec fn lists(self, a: int) -> bool {
        listed(self.young, a) || listed(self.old, a)
    }

    /// A value that points into the heap points to an object that counts.
    pub open spec fn known(self, v: Value) -> bool {
        v.tagged_ptr() && self.heap.plausible(v.addr()) ==> self.has(v.addr())
    }

    /// Objects fill the young and the old space, the spare space is empty,
    /// no object is marked, and every pointer in an object that counts leads
    /// to an object that counts.
    #[verifier::opaque]
    pub open spec fn sound(self) -> bool {
        let h = self.heap;
        &&& h.wf()
        &&& h.to.alloc == 0
        &&& tiles(h, self.young, h.from.base, h.from.top())
        &&& tiles(h, self.old, h.old.base, h.old.top())
        &&& forall|a: int| #[trigger] self.lists(a) ==> h.read(a) & 1 == 0 && headed(h, a)
        &&& forall|a: int, i: int|
            self.has(a) && !h.hdr(a).byte_format() && 0 <= i < h.nslots(a) ==> self.known(
                #[trigger] h.slot(a, i),
            )
    }
}

/// An address inside the storage of a listed object that is not its header
/// is no listed object.
pub(crate) proof fn lemma_inside(h: HeapView, objs: Seq<usize>, p: int, top: int, o: int, x: int)
    requires
        tiles(h, objs, p, top),
        listed(objs, o),
        h.storage_start(o) <= x < fin(h, o),
        x != o,
    ensures
        !listed(objs, x),
{
    let i = choose|i: int| 0 <= i < objs.len() && #[trigger] objs[i] == o;
    if listed(objs, x) {
        let j = choose|j: int| 0 <= j < objs.len() && #[trigger] objs[j] == x;
        if i < j {
            assert(fin(h, objs[i] as int) <= h.storage_start(objs[j] as int));
        } else {
            assert(fin(h, objs[j] as int) <= h.storage_start(objs[i] as int));
        }
    }
}

/// Listed objects do not overlap.
pub(crate) proof fn lemma_apart(h: HeapView, objs: Seq<usize>, p: int, top: int, a: int, b: int)
    requires
        tiles(h, objs, p, top),
        listed(objs, a),
        listed(objs, b),
        a != b,
    ensures
        fin(h, a) <= h.storage_start(b) || fin(h, b) <= h.storage_start(a),
{
    let i = choose|i: int| 0 <= i < objs.len() && #[trigger] objs[i] == a;
    let j = choose|j: int| 0 <= j < objs.len() && #[trigger] objs[j] == b;
    if i < j {
        assert(fin(h, objs[i] as int) <= h.storage_start(objs[j] as int));
    } else {
        assert(fin(h, objs[j] as int) <= h.storage_start(objs[i] as int));
    }
}

/// A listed object lies in the list's region.
pub(crate) proof fn lemma_within(h: HeapView, objs: Seq<usize>, p: int, top: int, a: int)
    requires
        tiles(h, objs, p, top),
        listed(objs, a),
    ensures
        h.whole(a),
        p <= h.storage_start(a) <= a,
        fin(h, a) <= top,
{
    let i = choose|i: int| 0 <= i < objs.len() && #[trigger] objs[i] == a;
    assert(h.whole(objs[i] as int));
}

// ---------------------------------------------------------------------------
// A scavenge in progress
// ---------------------------------------------------------------------------
/// `w` is what `v` becomes: a young pointer becomes the pointer to the copy.
pub open spec fn is_image(h: HeapView, v: Value, w: Value) -> bool {
    if v.tagged_ptr() && h.young(v.addr()) {
        h.read(v.addr()) & 1 == 1 && w == Value(h.read(v.addr()) & !1u64)
    } else {
        w == v
    }
}

/// A slot of a copy: the image of the slot it was copied from, or, in an
/// object still open, that slot as it was.
pub open spec fn slot_ok(bytes: bool, h: HeapView, v: Value, w: Value, open: bool) -> bool {
    if bytes {
        w == v
    } else {
        is_image(h, v, w) || (open && w == v)
    }
}

/// The object at `n` in `h` is the one at `a` in `h0`; where it did not move
/// its header is as it was.
pub open spec fn alike(h0: HeapView, a: int, h: HeapView, n: int, open: bool) -> bool {
    &&& same_fields(h0.hdr(a), h.hdr(n))
    &&& n == a ==> h.read(n) == h0.read(a)
    &&& h.read(n) & 1 == 0
    &&& h0.has_over(a) ==> h.read(n - 8) == h0.read(a - 8)
    &&& forall|i: int|
        0 <= i < h0.nslots(a) ==> slot_ok(
            h0.hdr(a).byte_format(),
            h,
            h0.slot(a, i),
            #[trigger] h.slot(n, i),
            open,
        )
}

/// Where the copies are, and what each was copied from.
#[verifier::ext_equal]
pub struct Copies {
    /// The copies in the spare space, in address order.
    pub spare: Seq<usize>,
    pub source: Map<int, int>,
    /// The objects whose slots have not all been forwarded.
    pub open: Set<int>,
}

impl Copies {
    /// What the object at `o` was before the scavenge.
    pub open spec fn origin(self, o: int) -> int {
        if self.source.dom().contains(o) {
            self.source[o]
        } else {
            o
        }
    }

    /// There is a copy or an old object at `o`.
    pub open spec fn stands(self, b: Objects, o: int) -> bool {
        self.source.dom().contains(o) || listed(b.old, o)
    }

    /// The spaces and the lists of copies.
    #[verifier::opaque]
    pub open spec fn placed(self, b: Objects, s: ScavView) -> bool {
        let h = s.heap;
        &&& h.wf()
        &&& h.layout() == b.heap.layout()
        &&& h.from.alloc == b.heap.from.alloc
        &&& b.heap.old.alloc <= h.old.alloc
        &&& tiles(h, self.spare, h.to.base, h.to.top())
        &&& tiles(h, s.tenured, b.heap.old.top(), h.old.top())
        &&& tiles(h, b.old, h.old.base, b.heap.old.top())
        &&& forall|n: int|
            #![trigger self.source.dom().contains(n)]
            #![trigger listed(self.spare, n)]
            #![trigger listed(s.tenured, n)]
            self.source.dom().contains(n) <==> (listed(self.spare, n) || listed(s.tenured, n))
        &&& forall|n: int| #[trigger] self.source.dom().contains(n) ==> b.alive(self.source[n])
    }

    /// The forwarding words: a young object is as it was, or its header
    /// tells where its copy is.
    #[verifier::opaque]
    pub open spec fn forwarding(self, b: Objects, h: HeapView) -> bool {
        &&& forall|n: int|
            #[trigger] self.source.dom().contains(n) ==> h.read(self.source[n]) == (n as u64) | 1 && n
                % 8 == 0 && 0 <= n <= u64::MAX
        &&& forall|a: int| #[trigger]
            listed(b.young, a) ==> h.read(a) == b.heap.read(a) || (self.source.dom().contains(
                (h.read(a) & !1u64) as int,
            ) && self.source[(h.read(a) & !1u64) as int] == a && h.read(a) & 1 == 1)
        &&& forall|x: int|
            b.heap.young(x) && x % 8 == 0 && !listed(b.young, x) ==> #[trigger] h.read(x)
                == b.heap.read(x)
    }

    /// Every copy and every old object is the object it was.
    #[verifier::opaque]
    pub open spec fn matching(self, b: Objects, h: HeapView) -> bool {
        forall|o: int| #[trigger]
            self.stands(b, o) ==> alike(b.heap, self.origin(o), h, o, self.open.contains(o))
    }

    /// What waits to be scanned is a copy.
    #[verifier::opaque]
    pub open spec fn queued(self, s: ScavView) -> bool {
        forall|o: int| #[trigger] listed(s.work, o) ==> self.source.dom().contains(o)
    }

    pub open spec fn ok(self, b: Objects, s: ScavView) -> bool {
        &&& self.placed(b, s)
        &&& self.queued(s)
        &&& self.forwarding(b, s.heap)
        &&& self.matching(b, s.heap)
    }
}

/// Copies and images found stay what they are.
pub open spec fn kept(c: Copies, s: ScavView, c1: Copies, s1: ScavView) -> bool {
    &&& forall|n: int| #[trigger]
        c.source.dom().contains(n) ==> c1.source.dom().contains(n) && c1.source[n] == c.source[n]
    &&& forall|v: Value, w: Value| #[trigger] is_image(s.heap, v, w) ==> is_image(s1.heap, v, w)
    &&& s1.heap.ssb == s.heap.ssb
}

/// Nothing known before a step is lost in it, and what it opens it queues.
pub open spec fn advanced(c: Copies, s: ScavView, c1: Copies, s1: ScavView) -> bool {
    &&& kept(c, s, c1, s1)
    &&& forall|o: int| #[trigger] c1.open.contains(o) ==> c.open.contains(o) || listed(s1.work, o)
    &&& forall|o: int| #[trigger] listed(s.work, o) ==> listed(s1.work, o)
}

/// Copies and old objects do not overlap, and lie outside of young space.
#[verifier::rlimit(60)]
pub(crate) proof fn lemma_stand_apart(b: Objects, s: ScavView, c: Copies, o: int, p: int)
    requires
        b.sound(),
        c.placed(b, s),
        c.stands(b, o),
        c.stands(b, p),
    ensures
        s.heap.whole(o),
        !s.heap.young(s.heap.storage_start(o)),
        !s.heap.young(o),
        s.heap.storage_start(o) <= o,
        o != p ==> fin(s.heap, o) <= s.heap.storage_start(p) || fin(s.heap, p)
            <= s.heap.storage_start(o),
        s.heap.plausible(s.heap.storage_start(o)),
        fin(s.heap, o) <= s.heap.limit_of(o),
        s.heap.limit_of(s.heap.storage_start(o)) == s.heap.limit_of(o),
{
    reveal(Objects::sound);
    reveal(Copies::placed);
    let h = s.heap;
    if c.source.dom().contains(o) {
        assert(listed(c.spare, o) || listed(s.tenured, o));
    }
    if c.source.dom().contains(p) {
        assert(listed(c.spare, p) || listed(s.tenured, p));
    }
    if listed(c.spare, o) {
        lemma_within(h, c.spare, h.to.base, h.to.top(), o);
    } else if listed(s.tenured, o) {
        lemma_within(h, s.tenured, b.heap.old.top(), h.old.top(), o);
    } else {
        lemma_within(h, b.old, h.old.base, b.heap.old.top(), o);
    }
    if listed(c.spare, p) {
        lemma_within(h, c.spare, h.to.base, h.to.top(), p);
    } else if listed(s.tenured, p) {
        lemma_within(h, s.tenured, b.heap.old.top(), h.old.top(), p);
    } else {
        lemma_within(h, b.old, h.old.base, b.heap.old.top(), p);
    }
    if o != p {
        if listed(c.spare, o) && listed(c.spare, p) {
            lemma_apart(h, c.spare, h.to.base, h.to.top(), o, p);
        } else if listed(s.tenured, o) && listed(s.tenured, p) {
            lemma_apart(h, s.tenured, b.heap.old.top(), h.old.top(), o, p);
        } else if listed(b.old, o) && listed(b.old, p) {
            lemma_apart(h, b.old, h.old.base, b.heap.old.top(), o, p);
        }
    }
}

/// Images stay images while forwarding words stay in place.
pub(crate) proof fn lemma_images_kept(h: HeapView, h1: HeapView)
    requires
        h1.layout() == h.layout(),
        forall|x: int|
            h.young(x) && x % 8 == 0 && h.read(x) & 1 == 1 ==> #[trigger] h1.read(x) == h.read(x),
    ensures
        forall|v: Value, w: Value| #[trigger] is_image(h, v, w) ==> is_image(h1, v, w),
{
    assert forall|v: Value, w: Value| #[trigger] is_image(h, v, w) implies is_image(h1, v, w) by {
        crate::value::lemma_untag_bits(v);
        if v.tagged_ptr() && h.young(v.addr()) {
            assert(h1.read(v.addr()) == h.read(v.addr()));
        }
    }
}

/// An object whose words are kept is still the object it was.
pub(crate) proof fn lemma_alike_kept(h0: HeapView, a: int, h: HeapView, h1: HeapView, n: int, open: bool)
    requires
        alike(h0, a, h, n, open),
        h1.read(n) == h.read(n),
        h0.has_over(a) ==> h1.read(n - 8) == h.read(n - 8),
        forall|i: int| 0 <= i < h0.nslots(a) ==> #[trigger] h1.slot(n, i) == h.slot(n, i),
        forall|v: Value, w: Value| #[trigger] is_image(h, v, w) ==> is_image(h1, v, w),
    ensures
        alike(h0, a, h1, n, open),
{
    assert forall|i: int| 0 <= i < h0.nslots(a) implies slot_ok(
        h0.hdr(a).byte_format(),
        h1,
        h0.slot(a, i),
        #[trigger] h1.slot(n, i),
        open,
    ) by {
        assert(h1.slot(n, i) == h.slot(n, i));
        assert(slot_ok(h0.hdr(a).byte_format(), h, h0.slot(a, i), h.slot(n, i), open));
    }
}

/// A copy has the size of the object it was copied from.
pub(crate) proof fn lemma_alike_size(h0: HeapView, a: int, h: HeapView, n: int, open: bool)
    requires
        alike(h0, a, h, n, open),
    ensures
        h.nslots(n) == h0.nslots(a),
        h.has_over(n) == h0.has_over(a),
        h.hdr(n).byte_format() == h0.hdr(a).byte_format(),
{
}

/// Where a young object is read, and that it is no copy.
pub(crate) proof fn lemma_young_listed(b: Objects, a: int)
    requires
        b.sound(),
        listed(b.young, a),
    ensures
        b.heap.whole(a),
        b.heap.young(a),
        b.heap.plausible(a),
        b.heap.from.base <= b.heap.storage_start(a) <= a,
        fin(b.heap, a) <= b.heap.from.top(),
        b.heap.read(a) & 1 == 0,
{
    reveal(Objects::sound);
    lemma_within(b.heap, b.young, b.heap.from.base, b.heap.from.top(), a);
    assert(b.lists(a));
}

/// A store of an image into a slot keeps everything in order.
#[verifier::rlimit(60)]
pub(crate) proof fn lemma_store_placed(b: Objects, s: ScavView, c: Copies, o: int, i: int, f: Value)
    requires
        b.sound(),
        c.ok(b, s),
        c.stands(b, o),
        0 <= i < b.heap.nslots(c.origin(o)),
    ensures
        c.placed(b, (ScavView { heap: s.heap.set_slot(o, i, f), ..s })),
        s.heap.plausible(o + 8 + 8 * i),
        !s.heap.young(o + 8 + 8 * i),
        s.heap.nslots(o) == b.heap.nslots(c.origin(o)),
{
    let h = s.heap;
    let x = o + 8 + 8 * i;
    let h1 = h.set_slot(o, i, f);
    assert(alike(b.heap, c.origin(o), h, o, c.open.contains(o))) by {
        reveal(Copies::matching);
    }
    lemma_alike_size(b.heap, c.origin(o), h, o, c.open.contains(o));
    lemma_stand_apart(b, s, c, o, o);
    assert(h.wf()) by {
        reveal(Copies::placed);
    }
    assert(x < fin(h, o));
    assert(h.plausible(x) && !h.young(x));
    lemma_reads_after_write(h, x, f.0);
    assert forall|p: int| #[trigger] c.stands(b, p) implies same_size(h, h1, p) by {
        lemma_stand_apart(b, s, c, p, o);
        assert(h1.read(p) == h.read(p));
        if h.has_over(p) {
            assert(h.plausible(p - 8));
            assert(h1.read(p - 8) == h.read(p - 8));
        }
    }
    reveal(Copies::placed);
    assert forall|k: int| 0 <= k < c.spare.len() implies same_size(
        h,
        h1,
        (#[trigger] c.spare[k]) as int,
    ) by {
        assert(listed(c.spare, c.spare[k] as int));
        assert(c.stands(b, c.spare[k] as int));
    }
    assert forall|k: int| 0 <= k < s.tenured.len() implies same_size(
        h,
        h1,
        (#[trigger] s.tenured[k]) as int,
    ) by {
        assert(listed(s.tenured, s.tenured[k] as int));
        assert(c.stands(b, s.tenured[k] as int));
    }
    assert forall|k: int| 0 <= k < b.old.len() implies same_size(
        h,
        h1,
        (#[trigger] b.old[k]) as int,
    ) by {
        assert(listed(b.old, b.old[k] as int));
        assert(c.stands(b, b.old[k] as int));
    }
    lemma_tiles_kept(h, h1, c.spare, h.to.base, h.to.top());
    lemma_tiles_kept(h, h1, s.tenured, b.heap.old.top(), h.old.top());
    lemma_tiles_kept(h, h1, b.old, h.old.base, b.heap.old.top());
}

#[verifier::rlimit(60)]
pub(crate) proof fn lemma_store_keeps(b: Objects, s: ScavView, c: Copies, o: int, i: int, f: Value)
    requires
        b.sound(),
        c.ok(b, s),
        c.stands(b, o),
        0 <= i < b.heap.nslots(c.origin(o)),
        !b.heap.hdr(c.origin(o)).byte_format(),
        is_image(s.heap, b.heap.slot(c.origin(o), i), f),
    ensures
        ({
            let s1 = ScavView { heap: s.heap.set_slot(o, i, f), ..s };
            &&& c.ok(b, s1)
            &&& advanced(c, s, c, s1)
            &&& s1.heap.slot(o, i) == f
            &&& forall|j: int|
                0 <= j < b.heap.nslots(c.origin(o)) && j != i ==> #[trigger] s1.heap.slot(o, j)
                    == s.heap.slot(o, j)
        }),
{
    let h = s.heap;
    let x = o + 8 + 8 * i;
    let h1 = h.set_slot(o, i, f);
    let s1 = ScavView { heap: h1, ..s };
    lemma_store_placed(b, s, c, o, i, f);
    assert(h.wf() && h.layout() == b.heap.layout()) by {
        reveal(Copies::placed);
    }
    lemma_reads_after_write(h, x, f.0);
    assert(forall|y: int|
        h.young(y) && y % 8 == 0 && h.read(y) & 1 == 1 ==> #[trigger] h1.read(y) == h.read(y));
    lemma_images_kept(h, h1);
    lemma_stand_apart(b, s, c, o, o);
    assert forall|j: int| 0 <= j < b.heap.nslots(c.origin(o)) && j != i implies #[trigger] h1.slot(
        o,
        j,
    ) == h.slot(o, j) by {
        assert(h.plausible(o + 8 + 8 * j));
    }
    assert(c.queued(s1)) by {
        reveal(Copies::queued);
    }
    assert(c.forwarding(b, h1)) by {
        reveal(Copies::forwarding);
        assert forall|n: int| #[trigger] c.source.dom().contains(n) implies h1.read(c.source[n])
            == h.read(c.source[n]) by {
            reveal(Copies::placed);
            lemma_young_listed(b, c.source[n]);
        }
        assert forall|a: int| #[trigger] listed(b.young, a) implies h1.read(a) == h.read(a) by {
            lemma_young_listed(b, a);
        }
    }
    assert(c.matching(b, h1)) by {
        reveal(Copies::matching);
        assert forall|p: int| #[trigger] c.stands(b, p) implies alike(
            b.heap,
            c.origin(p),
            h1,
            p,
            c.open.contains(p),
        ) by {
            let a = c.origin(p);
            let open = c.open.contains(p);
            assert(alike(b.heap, a, h, p, open));
            lemma_alike_size(b.heap, a, h, p, open);
            lemma_stand_apart(b, s, c, p, o);
            if b.heap.has_over(a) {
                assert(h.plausible(p - 8));
            }
            if p != o {
                assert forall|j: int| 0 <= j < b.heap.nslots(a) implies #[trigger] h1.slot(p, j)
                    == h.slot(p, j) by {
                    assert(h.plausible(p + 8 + 8 * j));
                }
                lemma_alike_kept(b.heap, a, h, h1, p, open);
            } else {
                assert forall|j: int| 0 <= j < b.heap.nslots(a) implies slot_ok(
                    b.heap.hdr(a).byte_format(),
                    h1,
                    b.heap.slot(a, j),
                    #[trigger] h1.slot(p, j),
                    open,
                ) by {
                    if j != i {
                        assert(slot_ok(
                            b.heap.hdr(a).byte_format(),
                            h,
                            b.heap.slot(a, j),
                            h.slot(p, j),
                            open,
                        ));
                    }
                }
            }
        }
    }
}

#[verifier::rlimit(60)]
pub(crate) proof fn lemma_listed_push(objs: Seq<usize>, o: usize)
    ensures
        forall|x: int| #[trigger] listed(objs.push(o), x) <==> listed(objs, x) || x == o,
{
    let t = objs.push(o);
    assert forall|x: int| #[trigger] listed(t, x) <==> listed(objs, x) || x == o by {
        if listed(objs, x) {
            let i = choose|i: int| 0 <= i < objs.len() && #[trigger] objs[i] == x;
            assert(t[i] == x);
        }
        if x == o {
            assert(t[objs.len() as int] == x);
        }
        if listed(t, x) {
            let i = choose|i: int| 0 <= i < t.len() && #[trigger] t[i] == x;
            if i < objs.len() {
                assert(objs[i] == x);
            }
        }
    }
}

/// The state after the young object at `a` was copied to `n`.
pub open spec fn with_copy(c: Copies, a: int, n: int, spare: bool) -> Copies {
    Copies {
        spare: if spare {
            c.spare.push(n as usize)
        } else {
            c.spare
        },
        source: c.source.insert(n, a),
        open: c.open.insert(n),
    }
}

/// An object not copied yet is read as it was.
#[verifier::rlimit(60)]
pub(crate) proof fn lemma_uncopied(b: Objects, s: ScavView, c: Copies, a: int)
    requires
        b.sound(),
        c.ok(b, s),
        listed(b.young, a),
        s.heap.read(a) == b.heap.read(a),
    ensures
        s.heap.nslots(a) == b.heap.nslots(a),
        s.heap.storage_start(a) == b.heap.storage_start(a),
        s.heap.has_over(a) == b.heap.has_over(a),
        fin(s.heap, a) == fin(b.heap, a),
        b.heap.has_over(a) ==> s.heap.read(a - 8) == b.heap.read(a - 8),
        forall|i: int|
            0 <= i < b.heap.nslots(a) ==> #[trigger] s.heap.slot(a, i) == b.heap.slot(a, i),
{
    lemma_young_listed(b, a);
    let h0 = b.heap;
    assert(tiles(h0, b.young, h0.from.base, h0.from.top()) && h0.wf()) by {
        reveal(Objects::sound);
    }
    reveal(Copies::forwarding);
    if h0.has_over(a) {
        lemma_inside(h0, b.young, h0.from.base, h0.from.top(), a, a - 8);
        assert(s.heap.read(a - 8) == h0.read(a - 8));
    }
    assert forall|i: int| 0 <= i < h0.nslots(a) implies #[trigger] s.heap.slot(a, i) == h0.slot(
        a,
        i,
    ) by {
        lemma_inside(h0, b.young, h0.from.base, h0.from.top(), a, a + 8 + 8 * i);
        assert(s.heap.read(a + 8 + 8 * i) == h0.read(a + 8 + 8 * i));
    }
}

/// Where a copy goes there was nothing before.
#[verifier::rlimit(60)]
pub(crate) proof fn lemma_copy_fresh(b: Objects, s: ScavView, c: Copies, h1: HeapView, a: int, n: int, p: int)
    requires
        b.sound(),
        c.ok(b, s),
        listed(b.young, a),
        s.heap.read(a) == b.heap.read(a),
        copied_to(s.heap, h1, a, n),
        c.stands(b, p),
    ensures
        p != n,
        h1.read(p) == s.heap.read(p),
        s.heap.has_over(p) ==> h1.read(p - 8) == s.heap.read(p - 8),
        forall|i: int|
            0 <= i < s.heap.nslots(p) ==> #[trigger] h1.slot(p, i) == s.heap.slot(p, i),
{
    let h = s.heap;
    lemma_uncopied(b, s, c, a);
    lemma_young_listed(b, a);
    lemma_stand_apart(b, s, c, p, p);
    let lo = h.storage_start(a) - a + n;
    let hi = fin(h, a) - a + n;
    assert(h.wf() && h.layout() == b.heap.layout() && (fin(h, p) <= lo || hi <= h.storage_start(p)))
        by {
        reveal(Copies::placed);
        if c.source.dom().contains(p) {
            assert(listed(c.spare, p) || listed(s.tenured, p));
        }
        if listed(c.spare, p) {
            lemma_within(h, c.spare, h.to.base, h.to.top(), p);
        } else if listed(s.tenured, p) {
            lemma_within(h, s.tenured, b.heap.old.top(), h.old.top(), p);
        } else {
            lemma_within(h, b.old, h.old.base, b.heap.old.top(), p);
        }
    }
    if h.has_over(p) {
        assert(h.plausible(p - 8));
    }
    assert forall|i: int| 0 <= i < h.nslots(p) implies #[trigger] h1.slot(p, i) == h.slot(p, i) by {
        assert(h.plausible(p + 8 + 8 * i));
    }
}

/// The lists of objects still fill their regions after a copy.
#[verifier::rlimit(60)]
pub(crate) proof fn lemma_copy_tiles(b: Objects, s: ScavView, c: Copies, h1: HeapView, a: int, n: int)
    requires
        b.sound(),
        c.ok(b, s),
        listed(b.young, a),
        s.heap.read(a) == b.heap.read(a),
        copied_to(s.heap, h1, a, n),
    ensures
        tiles(h1, c.spare, s.heap.to.base, s.heap.to.top()),
        tiles(h1, s.tenured, b.heap.old.top(), s.heap.old.top()),
        tiles(h1, b.old, s.heap.old.base, b.heap.old.top()),
{
    let h = s.heap;
    assert forall|p: int| #[trigger] c.stands(b, p) implies same_size(h, h1, p) by {
        lemma_copy_fresh(b, s, c, h1, a, n, p);
    }
    reveal(Copies::placed);
    assert forall|k: int| 0 <= k < c.spare.len() implies same_size(
        h,
        h1,
        (#[trigger] c.spare[k]) as int,
    ) by {
        assert(listed(c.spare, c.spare[k] as int));
        assert(c.stands(b, c.spare[k] as int));
    }
    assert forall|k: int| 0 <= k < s.tenured.len() implies same_size(
        h,
        h1,
        (#[trigger] s.tenured[k]) as int,
    ) by {
        assert(listed(s.tenured, s.tenured[k] as int));
        assert(c.stands(b, s.tenured[k] as int));
    }
    assert forall|k: int| 0 <= k < b.old.len() implies same_size(
        h,
        h1,
        (#[trigger] b.old[k]) as int,
    ) by {
        assert(listed(b.old, b.old[k] as int));
        assert(c.stands(b, b.old[k] as int));
    }
    lemma_tiles_kept(h, h1, c.spare, h.to.base, h.to.top());
    lemma_tiles_kept(h, h1, s.tenured, b.heap.old.top(), h.old.top());
    lemma_tiles_kept(h, h1, b.old, h.old.base, b.heap.old.top());
}

/// A copy is a whole object right after the others of its space.
#[verifier::spinoff_prover]
#[verifier::rlimit(80)]
pub(crate) proof fn lemma_copy_whole(b: Objects, s: ScavView, c: Copies, h1: HeapView, a: int, n: int)
    requires
        b.sound(),
        c.ok(b, s),
        listed(b.young, a),
        s.heap.read(a) == b.heap.read(a),
        copied_to(s.heap, h1, a, n),
    ensures
        h1.whole(n),
        h1.storage_start(n) == s.heap.storage_start(a) - a + n,
        fin(h1, n) == fin(s.heap, a) - a + n,
        h1.storage_start(n) < fin(h1, n),
{
    let h = s.heap;
    lemma_uncopied(b, s, c, a);
    lemma_young_listed(b, a);
    lemma_copy_header(h.hdr(a));
    reveal(Copies::placed);
    if h.has_over(a) {
        assert(h1.read(n - 8) == h.read(a - 8));
    }
    assert(h1.nslots(n) == h.nslots(a));
}

#[verifier::rlimit(60)]
#[verifier::spinoff_prover]
pub(crate) proof fn lemma_copy_placed(b: Objects, s: ScavView, c: Copies, s1: ScavView, a: int, n: int)
    requires
        b.sound(),
        c.ok(b, s),
        b.alive(a),
        s.heap.read(a) == b.heap.read(a),
        copied_to(s.heap, s1.heap, a, n),
        0 <= n <= usize::MAX,
        s1.tenured == s.tenured || s1.tenured == s.tenured.push(n as usize),
        s1.tenured == s.tenured ==> s1.heap.old.alloc == s.heap.old.alloc,
        s1.tenured != s.tenured ==> s1.heap.to.alloc == s.heap.to.alloc,
    ensures
        with_copy(c, a, n, s1.tenured == s.tenured).placed(b, s1),
{
    let h = s.heap;
    let h1 = s1.heap;
    lemma_copy_tiles(b, s, c, h1, a, n);
    lemma_copy_whole(b, s, c, h1, a, n);
    lemma_listed_push(c.spare, n as usize);
    lemma_listed_push(s.tenured, n as usize);
    assert(h.wf() && h.layout() == b.heap.layout() && b.heap.old.alloc <= h.old.alloc) by {
        reveal(Copies::placed);
    }
    if s1.tenured == s.tenured {
        assert(h1.storage_start(n) == h.to.top());
        lemma_tiles_more(h1, c.spare, h.to.base, h.to.top(), n as usize);
    } else {
        assert(h1.storage_start(n) == h.old.top());
        lemma_tiles_more(h1, s.tenured, b.heap.old.top(), h.old.top(), n as usize);
    }
    reveal(Copies::placed);
}

#[verifier::rlimit(60)]
pub(crate) proof fn lemma_copy_forwarding(b: Objects, s: ScavView, c: Copies, h1: HeapView, a: int, n: int, spare: bool)
    requires
        b.sound(),
        c.ok(b, s),
        listed(b.young, a),
        s.heap.read(a) == b.heap.read(a),
        copied_to(s.heap, h1, a, n),
        0 <= n <= usize::MAX,
    ensures
        with_copy(c, a, n, spare).forwarding(b, h1),
        forall|v: Value, w: Value| #[trigger] is_image(s.heap, v, w) ==> is_image(h1, v, w),
        !c.source.dom().contains(n),
{
    let h = s.heap;
    let c1 = with_copy(c, a, n, spare);
    lemma_uncopied(b, s, c, a);
    lemma_young_listed(b, a);
    lemma_forward_bits(n as u64, 0, 0);
    let lo = h.storage_start(a) - a + n;
    let hi = fin(h, a) - a + n;
    assert(h.wf() && h.layout() == b.heap.layout()) by {
        reveal(Copies::placed);
    }
    assert(forall|x: int| h.young(x) ==> !(lo <= x < hi));
    assert(forall|x: int|
        h.young(x) && x % 8 == 0 && x != a ==> #[trigger] h1.read(x) == h.read(x));
    lemma_images_kept(h, h1);
    if c.source.dom().contains(n) {
        assert(c.stands(b, n));
        lemma_copy_fresh(b, s, c, h1, a, n, n);
    }
    reveal(Copies::forwarding);
    assert forall|m: int| #[trigger] c1.source.dom().contains(m) implies h1.read(c1.source[m]) == (
    m as u64) | 1 && m % 8 == 0 && 0 <= m <= u64::MAX by {
        if m != n {
            assert(c.source.dom().contains(m));
            lemma_forward_bits(m as u64, 0, 0);
            assert(listed(b.young, c.source[m])) by {
                reveal(Copies::placed);
            }
            lemma_young_listed(b, c.source[m]);
            assert(c.source[m] != a);
        }
    }
    assert forall|a2: int| #[trigger] listed(b.young, a2) implies h1.read(a2) == b.heap.read(a2)
        || (c1.source.dom().contains((h1.read(a2) & !1u64) as int) && c1.source[(h1.read(a2) & !1u64)
        as int] == a2 && h1.read(a2) & 1 == 1) by {
        lemma_young_listed(b, a2);
        if a2 != a {
            assert(h1.read(a2) == h.read(a2));
        }
    }
}

#[verifier::rlimit(60)]
pub(crate) proof fn lemma_copy_matching(b: Objects, s: ScavView, c: Copies, h1: HeapView, a: int, n: int, spare: bool)
    requires
        b.sound(),
        c.ok(b, s),
        listed(b.young, a),
        s.heap.read(a) == b.heap.read(a),
        copied_to(s.heap, h1, a, n),
        forall|v: Value, w: Value| #[trigger] is_image(s.heap, v, w) ==> is_image(h1, v, w),
    ensures
        with_copy(c, a, n, spare).matching(b, h1),
{
    let h = s.heap;
    let c1 = with_copy(c, a, n, spare);
    reveal(Copies::matching);
    lemma_uncopied(b, s, c, a);
    lemma_copy_header(h.hdr(a));
    assert(n != a) by {
        lemma_young_listed(b, a);
        assert(h.wf() && h.layout() == b.heap.layout()) by {
            reveal(Copies::placed);
        }
        lemma_forward_bits(n as u64, 0, 0);
    }
    assert(alike(b.heap, a, h1, n, true)) by {
        if b.heap.has_over(a) {
            assert(h1.read(n - 8) == h.read(a - 8));
        }
        assert forall|i: int| 0 <= i < b.heap.nslots(a) implies slot_ok(
            b.heap.hdr(a).byte_format(),
            h1,
            b.heap.slot(a, i),
            #[trigger] h1.slot(n, i),
            true,
        ) by {
            assert(h1.read(n + 8 + 8 * i) == h.read(n + 8 + 8 * i - n + a));
            assert(h.slot(a, i) == b.heap.slot(a, i));
        }
    }
    assert forall|p: int| #[trigger] c1.stands(b, p) implies alike(
        b.heap,
        c1.origin(p),
        h1,
        p,
        c1.open.contains(p),
    ) by {
        if p != n {
            assert(c.stands(b, p));
            let open = c.open.contains(p);
            assert(alike(b.heap, c.origin(p), h, p, open));
            lemma_alike_size(b.heap, c.origin(p), h, p, open);
            lemma_copy_fresh(b, s, c, h1, a, n, p);
            lemma_alike_kept(b.heap, c.origin(p), h, h1, p, open);
        }
    }
}

/// Forwarding a value keeps everything in order and gives its image.
#[verifier::rlimit(60)]
pub(crate) proof fn lemma_forward_keeps(b: Objects, s: ScavView, c: Copies, v: Value, threshold: u64) -> (c1:
    Copies)
    requires
        b.sound(),
        c.ok(b, s),
        v.tagged_ptr() && s.heap.young(v.addr()) ==> b.alive(v.addr()),
    ensures
        s.forward(v, threshold) matches Some((s1, f)) ==> {
            &&& c1.ok(b, s1)
            &&& advanced(c, s, c1, s1)
            &&& is_image(s1.heap, v, f)
            &&& forall|o: int| #[trigger] c.stands(b, o) ==> c1.stands(b, o) && c1.origin(o)
                == c.origin(o)
            &&& forall|o: int, i: int|
                c.stands(b, o) && 0 <= i < b.heap.nslots(c.origin(o)) ==> #[trigger] s1.heap.slot(
                    o,
                    i,
                ) == s.heap.slot(o, i)
            &&& forall|o: int| c.open.contains(o) ==> c1.open.contains(o)
        },
{
    reveal(ScavView::forward);
    let h = s.heap;
    let a = v.addr();
    if v.tagged_ptr() && h.young(a) && h.read(a) & 1 != 1 && h.copyable(a) {
        lemma_young_listed(b, a);
        assert(h.read(a) == b.heap.read(a)) by {
            reveal(Copies::forwarding);
        }
        assert(h.wf() && h.layout() == b.heap.layout() && h.from.alloc == b.heap.from.alloc) by {
            reveal(Copies::placed);
        }
        lemma_uncopied(b, s, c, a);
        lemma_evacuated(s, a, threshold);
        if let Some((s1, n)) = s.evacuate(a, threshold) {
            let spare = s1.tenured == s.tenured;
            let c1 = with_copy(c, a, n, spare);
            lemma_copy_placed(b, s, c, s1, a, n);
            lemma_copy_forwarding(b, s, c, s1.heap, a, n, spare);
            lemma_copy_matching(b, s, c, s1.heap, a, n, spare);
            lemma_listed_push(s.work, n as usize);
            assert(c1.queued(s1)) by {
                reveal(Copies::queued);
            }
            lemma_forward_bits(n as u64, 0, 0);
            assert forall|o: int, i: int|
                c.stands(b, o) && 0 <= i < b.heap.nslots(c.origin(o)) implies
                #[trigger] s1.heap.slot(o, i) == s.heap.slot(o, i) by {
                lemma_copy_fresh(b, s, c, s1.heap, a, n, o);
                reveal(Copies::matching);
                lemma_alike_size(b.heap, c.origin(o), h, o, c.open.contains(o));
            }
            assert forall|o: int| #[trigger] c.stands(b, o) implies c1.stands(b, o) && c1.origin(o)
                == c.origin(o) by {
                lemma_copy_fresh(b, s, c, s1.heap, a, n, o);
            }
            c1
        } else {
            c
        }
    } else {
        c
    }
}

// ---------------------------------------------------------------------------
// Scanning
// ---------------------------------------------------------------------------
pub(crate) proof fn lemma_advanced_twice(
    c: Copies,
    s: ScavView,
    c1: Copies,
    s1: ScavView,
    c2: Copies,
    s2: ScavView,
)
    requires
        advanced(c, s, c1, s1),
        advanced(c1, s1, c2, s2),
    ensures
        advanced(c, s, c2, s2),
{
    assert forall|o: int| #[trigger] c2.open.contains(o) implies c.open.contains(o) || listed(
        s2.work,
        o,
    ) by {
        if c1.open.contains(o) && listed(s1.work, o) {
        }
    }
    assert forall|v: Value, w: Value| #[trigger] is_image(s.heap, v, w) implies is_image(
        s2.heap,
        v,
        w,
    ) by {
        assert(is_image(s1.heap, v, w));
    }
}

/// A young pointer found in a copy or an old object leads to a young object.
#[verifier::rlimit(60)]
pub(crate) proof fn lemma_slot_known(b: Objects, s: ScavView, c: Copies, o: int, i: int)
    requires
        b.sound(),
        c.ok(b, s),
        c.stands(b, o),
        0 <= i < b.heap.nslots(c.origin(o)),
        !b.heap.hdr(c.origin(o)).byte_format(),
    ensures
        ({
            let v = s.heap.slot(o, i);
            &&& v.tagged_ptr() && s.heap.young(v.addr()) ==> b.alive(v.addr()) && v
                == b.heap.slot(c.origin(o), i)
            &&& v != b.heap.slot(c.origin(o), i) ==> is_image(
                s.heap,
                b.heap.slot(c.origin(o), i),
                v,
            )
            &&& b.known(b.heap.slot(c.origin(o), i))
        }),
{
    let a = c.origin(o);
    let v0 = b.heap.slot(a, i);
    let v = s.heap.slot(o, i);
    let open = c.open.contains(o);
    assert(alike(b.heap, a, s.heap, o, open)) by {
        reveal(Copies::matching);
    }
    assert(slot_ok(false, s.heap, v0, v, open));
    assert(b.has(a) && s.heap.layout() == b.heap.layout()) by {
        reveal(Copies::placed);
    }
    assert(b.known(v0)) by {
        reveal(Objects::sound);
    }
    crate::value::lemma_untag_bits(v);
    crate::value::lemma_untag_bits(v0);
    if v.tagged_ptr() && s.heap.young(v.addr()) {
        if v == v0 {
            lemma_young_is_young(b, v0);
        } else {
            assert(is_image(s.heap, v0, v));
            lemma_image_stands(b, s, c, v0, v);
            lemma_stand_apart(b, s, c, v.addr(), v.addr());
        }
    }
}

/// A pointer into young space that is known leads to a young object.
pub(crate) proof fn lemma_young_is_young(b: Objects, v: Value)
    requires
        b.sound(),
        b.known(v),
        v.tagged_ptr(),
        b.heap.young(v.addr()),
    ensures
        b.alive(v.addr()),
{
    crate::value::lemma_untag_bits(v);
    if !b.alive(v.addr()) {
        reveal(Objects::sound);
        lemma_within(b.heap, b.old, b.heap.old.base, b.heap.old.top(), v.addr());
    }
}

/// The image of a known value that was moved is a copy.
#[verifier::rlimit(60)]
pub(crate) proof fn lemma_image_stands(b: Objects, s: ScavView, c: Copies, v: Value, w: Value)
    requires
        b.sound(),
        c.ok(b, s),
        b.known(v),
        is_image(s.heap, v, w),
        v.tagged_ptr(),
        b.heap.plausible(v.addr()),
    ensures
        c.stands(b, w.addr()),
        c.origin(w.addr()) == v.addr(),
        w.tagged_ptr(),
        s.heap.young(v.addr()) ==> c.source.dom().contains(w.addr()),
        !s.heap.young(v.addr()) ==> w == v && !c.source.dom().contains(w.addr()),
{
    assert(s.heap.layout() == b.heap.layout()) by {
        reveal(Copies::placed);
    }
    let a = v.addr();
    if s.heap.young(a) {
        lemma_young_is_young(b, v);
        lemma_young_listed(b, a);
        reveal(Copies::forwarding);
        let n = (s.heap.read(a) & !1u64) as int;
        assert(c.source.dom().contains(n));
        crate::value::lemma_untag_bits(w);
    } else {
        assert(listed(b.old, a)) by {
            if !listed(b.old, a) {
                lemma_young_listed(b, a);
            }
        }
        if c.source.dom().contains(a) {
            reveal(Copies::placed);
            reveal(Objects::sound);
            assert(listed(c.spare, a) || listed(s.tenured, a));
            lemma_within(b.heap, b.old, b.heap.old.base, b.heap.old.top(), a);
            if listed(c.spare, a) {
                lemma_within(s.heap, c.spare, s.heap.to.base, s.heap.to.top(), a);
            } else {
                lemma_within(s.heap, s.tenured, b.heap.old.top(), s.heap.old.top(), a);
            }
        }
    }
}

/// Different values have different images.
#[verifier::rlimit(60)]
pub(crate) proof fn lemma_image_inj(b: Objects, s: ScavView, c: Copies, v: Value, u: Value, w: Value)
    requires
        b.sound(),
        c.ok(b, s),
        b.known(v),
        b.known(u),
        is_image(s.heap, v, w),
        is_image(s.heap, u, w),
    ensures
        v == u,
{
    assert(s.heap.layout() == b.heap.layout()) by {
        reveal(Copies::placed);
    }
    crate::value::lemma_untag_bits(v);
    crate::value::lemma_untag_bits(u);
    let vy = v.tagged_ptr() && s.heap.young(v.addr());
    let uy = u.tagged_ptr() && s.heap.young(u.addr());
    if vy {
        lemma_image_stands(b, s, c, v, w);
        lemma_stand_apart(b, s, c, w.addr(), w.addr());
    }
    if uy {
        lemma_image_stands(b, s, c, u, w);
        lemma_stand_apart(b, s, c, w.addr(), w.addr());
    }
    if vy && !uy {
        assert(u == w);
        assert(b.heap.plausible(w.addr()));
        lemma_image_stands(b, s, c, u, w);
    }
    if uy && !vy {
        assert(v == w);
        assert(b.heap.plausible(w.addr()));
        lemma_image_stands(b, s, c, v, w);
    }
}

/// What scanning slots gives: the object's slots are images, and everything
/// else is in order.
pub open spec fn scanned(b: Objects, s: ScavView, c: Copies, o: int, s1: ScavView, c1: Copies) -> bool {
    &&& c1.ok(b, s1)
    &&& advanced(c, s, c1, s1)
    &&& forall|p: int| #[trigger] c.stands(b, p) ==> c1.stands(b, p) && c1.origin(p) == c.origin(p)
    &&& forall|j: int|
        0 <= j < b.heap.nslots(c.origin(o)) ==> is_image(
            s1.heap,
            b.heap.slot(c.origin(o), j),
            #[trigger] s1.heap.slot(o, j),
        )
}

#[verifier::rlimit(60)]
pub(crate) proof fn lemma_scan_slots_keeps(
    b: Objects,
    s: ScavView,
    c: Copies,
    o: int,
    i: int,
    n: int,
    threshold: u64,
) -> (c1: Copies)
    requires
        b.sound(),
        c.ok(b, s),
        c.stands(b, o),
        n == b.heap.nslots(c.origin(o)),
        0 <= i <= n,
        !b.heap.hdr(c.origin(o)).byte_format(),
        forall|j: int|
            0 <= j < i ==> is_image(
                s.heap,
                b.heap.slot(c.origin(o), j),
                #[trigger] s.heap.slot(o, j),
            ),
    ensures
        s.scan_slots(o, i, n, threshold) matches Some(s1) ==> scanned(b, s, c, o, s1, c1),
    decreases n - i,
{
    if i >= n {
        c
    } else {
        let a = c.origin(o);
        let v = s.heap.slot(o, i);
        let v0 = b.heap.slot(a, i);
        lemma_slot_known(b, s, c, o, i);
        let c1 = lemma_forward_keeps(b, s, c, v, threshold);
        match s.forward(v, threshold) {
            None => c,
            Some((s1, f)) => {
                assert(is_image(s1.heap, v0, f)) by {
                    if v != v0 {
                        assert(is_image(s.heap, v0, v));
                        assert(is_image(s1.heap, v0, v));
                        assert(s1.heap.layout() == s.heap.layout()) by {
                            reveal(Copies::placed);
                        }
                    }
                }
                assert forall|j: int| 0 <= j < i implies is_image(
                    s1.heap,
                    b.heap.slot(a, j),
                    #[trigger] s1.heap.slot(o, j),
                ) by {
                    assert(s1.heap.slot(o, j) == s.heap.slot(o, j));
                    assert(is_image(s.heap, b.heap.slot(a, j), s.heap.slot(o, j)));
                }
                assert(s1.heap.slot(o, i) == v);
                let s2 = if f != v {
                    ScavView { heap: s1.heap.set_slot(o, i, f), ..s1 }
                } else {
                    s1
                };
                if f != v {
                    lemma_store_keeps(b, s1, c1, o, i, f);
                    lemma_advanced_twice(c, s, c1, s1, c1, s2);
                    assert forall|j: int| 0 <= j < i + 1 implies is_image(
                        s2.heap,
                        b.heap.slot(a, j),
                        #[trigger] s2.heap.slot(o, j),
                    ) by {
                        if j != i {
                            assert(s2.heap.slot(o, j) == s1.heap.slot(o, j));
                            assert(is_image(s1.heap, b.heap.slot(a, j), s1.heap.slot(o, j)));
                        } else {
                            assert(is_image(s1.heap, v0, f));
                        }
                    }
                }
                assert(c1.origin(o) == a);
                let c2 = lemma_scan_slots_keeps(b, s2, c1, o, i + 1, n, threshold);
                if let Some(s3) = s2.scan_slots(o, i + 1, n, threshold) {
                    lemma_advanced_twice(c, s, c1, s2, c2, s3);
                }
                c2
            },
        }
    }
}

/// A scanned object is no longer open.
#[verifier::rlimit(60)]
pub(crate) proof fn lemma_closed(b: Objects, s: ScavView, c: Copies, o: int)
    requires
        c.ok(b, s),
        c.stands(b, o),
        b.heap.hdr(c.origin(o)).byte_format() || forall|j: int|
            0 <= j < b.heap.nslots(c.origin(o)) ==> is_image(
                s.heap,
                b.heap.slot(c.origin(o), j),
                #[trigger] s.heap.slot(o, j),
            ),
    ensures
        (Copies { open: c.open.remove(o), ..c }).ok(b, s),
{
    let c1 = Copies { open: c.open.remove(o), ..c };
    assert(c1.matching(b, s.heap)) by {
        reveal(Copies::matching);
        assert forall|p: int| #[trigger] c1.stands(b, p) implies alike(
            b.heap,
            c1.origin(p),
            s.heap,
            p,
            c1.open.contains(p),
        ) by {
            assert(c.stands(b, p));
            assert(alike(b.heap, c.origin(p), s.heap, p, c.open.contains(p)));
            if p == o {
                let a = c.origin(o);
                assert forall|j: int| 0 <= j < b.heap.nslots(a) implies slot_ok(
                    b.heap.hdr(a).byte_format(),
                    s.heap,
                    b.heap.slot(a, j),
                    #[trigger] s.heap.slot(o, j),
                    false,
                ) by {
                    assert(slot_ok(
                        b.heap.hdr(a).byte_format(),
                        s.heap,
                        b.heap.slot(a, j),
                        s.heap.slot(o, j),
                        c.open.contains(o),
                    ));
                }
            }
        }
    }
    assert(c1.placed(b, s)) by {
        reveal(Copies::placed);
    }
    assert(c1.forwarding(b, s.heap)) by {
        reveal(Copies::forwarding);
    }
    assert(c1.queued(s)) by {
        reveal(Copies::queued);
    }
}

/// Scanning a copy or an old object closes it.
#[verifier::rlimit(60)]
pub(crate) proof fn lemma_scan_keeps(b: Objects, s: ScavView, c: Copies, o: int, threshold: u64) -> (c1: Copies)
    requires
        b.sound(),
        c.ok(b, s),
        c.stands(b, o),
    ensures
        s.scan(o, threshold) matches Some(s1) ==> {
            &&& c1.ok(b, s1)
            &&& advanced(c, s, c1, s1)
            &&& !c1.open.contains(o)
            &&& forall|p: int| #[trigger] c.stands(b, p) ==> c1.stands(b, p) && c1.origin(p)
                == c.origin(p)
        },
{
    let a = c.origin(o);
    assert(alike(b.heap, a, s.heap, o, c.open.contains(o))) by {
        reveal(Copies::matching);
    }
    lemma_alike_size(b.heap, a, s.heap, o, c.open.contains(o));
    if s.heap.hdr(o).byte_format() {
        lemma_closed(b, s, c, o);
        Copies { open: c.open.remove(o), ..c }
    } else {
        let c1 = lemma_scan_slots_keeps(b, s, c, o, 0, s.heap.nslots(o) as int, threshold);
        if let Some(s1) = s.scan(o, threshold) {
            lemma_closed(b, s1, c1, o);
        }
        Copies { open: c1.open.remove(o), ..c1 }
    }
}

/// Forwarding a list gives the images of its values.
#[verifier::rlimit(60)]
pub(crate) proof fn lemma_forward_all_keeps(
    b: Objects,
    s: ScavView,
    c: Copies,
    list: Seq<Value>,
    i: int,
    threshold: u64,
) -> (c1: Copies)
    requires
        b.sound(),
        c.ok(b, s),
        0 <= i,
        forall|k: int| i <= k < list.len() ==> b.known(#[trigger] list[k]),
    ensures
        s.forward_all(list, i, threshold) matches Some((s1, out)) ==> {
            &&& c1.ok(b, s1)
            &&& advanced(c, s, c1, s1)
            &&& out.len() == list.len()
            &&& forall|k: int| 0 <= k < i && k < list.len() ==> #[trigger] out[k] == list[k]
            &&& forall|k: int|
                i <= k < list.len() ==> is_image(s1.heap, list[k], #[trigger] out[k])
        },
    decreases list.len() - i,
{
    if i >= list.len() {
        c
    } else {
        let v = list[i];
        assert(s.heap.layout() == b.heap.layout()) by {
            reveal(Copies::placed);
        }
        if v.tagged_ptr() && s.heap.young(v.addr()) {
            lemma_young_is_young(b, v);
        }
        let c1 = lemma_forward_keeps(b, s, c, v, threshold);
        match s.forward(v, threshold) {
            None => c,
            Some((s1, f)) => {
                let l1 = list.update(i, f);
                let c2 = lemma_forward_all_keeps(b, s1, c1, l1, i + 1, threshold);
                if let Some((s2, out)) = s1.forward_all(l1, i + 1, threshold) {
                    lemma_advanced_twice(c, s, c1, s1, c2, s2);
                    assert forall|k: int| i <= k < list.len() implies is_image(
                        s2.heap,
                        list[k],
                        #[trigger] out[k],
                    ) by {
                        if k == i {
                            assert(out[k] == l1[k]);
                            assert(is_image(s1.heap, v, f));
                        } else {
                            assert(is_image(s2.heap, l1[k], out[k]));
                        }
                    }
                    assert forall|k: int| 0 <= k < i && k < list.len() implies #[trigger] out[k]
                        == list[k] by {
                        assert(out[k] == l1[k]);
                    }
                }
                c2
            },
        }
    }
}

/// Scanning a list of old objects closes them all.
#[verifier::rlimit(60)]
pub(crate) proof fn lemma_scan_all_keeps(
    b: Objects,
    s: ScavView,
    c: Copies,
    list: Seq<usize>,
    i: int,
    threshold: u64,
) -> (c1: Copies)
    requires
        b.sound(),
        c.ok(b, s),
        0 <= i,
        forall|k: int| 0 <= k < list.len() ==> listed(b.old, (#[trigger] list[k]) as int),
        forall|k: int| 0 <= k < i && k < list.len() ==> !c.open.contains(#[trigger] list[k] as int),
    ensures
        s.scan_all(list, i, threshold) matches Some(s1) ==> {
            &&& c1.ok(b, s1)
            &&& advanced(c, s, c1, s1)
            &&& forall|k: int| 0 <= k < list.len() ==> !c1.open.contains(#[trigger] list[k] as int)
        },
    decreases list.len() - i,
{
    if i >= list.len() {
        c
    } else {
        let o = list[i] as int;
        assert(listed(b.old, list[i] as int));
        let c1 = lemma_scan_keeps(b, s, c, o, threshold);
        match s.scan(o, threshold) {
            None => c,
            Some(s1) => {
                assert forall|k: int| 0 <= k < i + 1 && k < list.len() implies !c1.open.contains(
                    #[trigger] list[k] as int,
                ) by {
                    let p = list[k] as int;
                    if c1.open.contains(p) {
                        assert(listed(s1.work, p));
                        assert(c1.source.dom().contains(p)) by {
                            reveal(Copies::queued);
                        }
                        lemma_old_no_copy(b, s1, c1, p);
                    }
                }
                let c2 = lemma_scan_all_keeps(b, s1, c1, list, i + 1, threshold);
                if let Some(s2) = s1.scan_all(list, i + 1, threshold) {
                    lemma_advanced_twice(c, s, c1, s1, c2, s2);
                }
                c2
            },
        }
    }
}

/// An object that was old is no copy.
pub(crate) proof fn lemma_old_no_copy(b: Objects, s: ScavView, c: Copies, p: int)
    requires
        b.sound(),
        c.ok(b, s),
        listed(b.old, p),
    ensures
        !c.source.dom().contains(p),
        c.origin(p) == p,
{
    reveal(Objects::sound);
    lemma_within(b.heap, b.old, b.heap.old.base, b.heap.old.top(), p);
    reveal(Copies::placed);
    if c.source.dom().contains(p) {
        if listed(c.spare, p) {
            lemma_within(s.heap, c.spare, s.heap.to.base, s.heap.to.top(), p);
        } else {
            lemma_within(s.heap, s.tenured, b.heap.old.top(), s.heap.old.top(), p);
        }
    }
}

/// Draining the queue closes every copy.
#[verifier::rlimit(60)]
pub(crate) proof fn lemma_drain_keeps(b: Objects, s: ScavView, c: Copies, threshold: u64) -> (c1: Copies)
    requires
        b.sound(),
        c.ok(b, s),
        forall|o: int| #[trigger] c.open.contains(o) ==> listed(s.work, o),
    ensures
        s.drain(threshold) matches Some(s1) ==> {
            &&& c1.ok(b, s1)
            &&& kept(c, s, c1, s1)
            &&& c1.open =~= Set::empty()
        },
    decreases s.measure(),
{
    assert(s.heap.wf()) by {
        reveal(Copies::placed);
    }
    if s.work.len() == 0 {
        c
    } else {
        let o = s.work.last() as int;
        let s0 = ScavView { work: s.work.drop_last(), ..s };
        assert(s.work[s.work.len() - 1] == o);
        assert(listed(s.work, o));
        assert forall|p: int| #[trigger] listed(s.work, p) implies listed(s0.work, p) || p == o by {
            let k = choose|k: int| 0 <= k < s.work.len() && #[trigger] s.work[k] == p;
            if k < s0.work.len() {
                assert(s0.work[k] == p);
            }
        }
        assert forall|p: int| #[trigger] listed(s0.work, p) implies listed(s.work, p) by {
            let k = choose|k: int| 0 <= k < s0.work.len() && #[trigger] s0.work[k] == p;
            assert(s.work[k] == p);
        }
        assert(c.ok(b, s0)) by {
            reveal(Copies::queued);
            reveal(Copies::placed);
        }
        assert(c.stands(b, o)) by {
            reveal(Copies::queued);
        }
        let c1 = lemma_scan_keeps(b, s0, c, o, threshold);
        crate::scavenge::lemma_scan(s0, o, threshold);
        match s0.scan(o, threshold) {
            None => c,
            Some(s1) => {
                assert forall|p: int| #[trigger] c1.open.contains(p) implies listed(s1.work, p) by {
                    if c.open.contains(p) {
                        assert(listed(s.work, p));
                        assert(listed(s0.work, p));
                    }
                }
                let c2 = lemma_drain_keeps(b, s1, c1, threshold);
                if let Some(s2) = s1.drain(threshold) {
                    assert forall|v: Value, w: Value| #[trigger]
                        is_image(s.heap, v, w) implies is_image(s2.heap, v, w) by {
                        assert(is_image(s1.heap, v, w));
                    }
                }
                c2
            },
        }
    }
}

} // verus!
