//! The copying machinery of the young collection: forwarding one pointer,
//! scanning one object, and draining the queue of copied objects.
//!
//! A live young object is copied to the other semispace, or tenured into
//! old space once it is old enough, and leaves its new address, with the
//! low bit set, in place of its header. Survivors of the copy are queued
//! and scanned until none is left.

use crate::heap::{Header, Heap, HeapView, SpaceView};
use crate::value::Value;
use crate::treaty::{
    GC_AGE_SHIFT, GC_BIT_IMMUTABLE, GC_BIT_PINNED, HDR_NSLOTS_OVERFLOW,
};
use vstd::prelude::*;

verus! {

/// A scavenge in progress: the heap, the copied objects still to be
/// scanned, the objects tenured so far, and how many bytes were copied and
/// tenured.
#[verifier::ext_equal]
pub struct ScavView {
    pub heap: HeapView,
    pub work: Seq<usize>,
    pub tenured: Seq<usize>,
    pub copied: u64,
    pub promoted: u64,
}

/// Scavenges an object has survived, from its header.
pub open spec fn age_of(h: Header) -> u64 {
    (h.gc_field() >> 3u64) & 7
}

/// The age after one more scavenge; it stays at its largest value.
pub open spec fn next_age(h: Header) -> u64 {
    if age_of(h) + 1 < 7 {
        (age_of(h) + 1) as u64
    } else {
        7
    }
}

/// The header of a copy: immutable and pinned bits kept, age stamped, mark
/// and remembered bits cleared.
pub open spec fn copy_header(h: Header) -> Header {
    h.regc((h.gc_field() & 0x84) | (next_age(h) << 3u64))
}

impl SpaceView {
    /// The space with `words` placed at its top.
    pub open spec fn pasted(self, words: Seq<u64>) -> SpaceView {
        SpaceView {
            mem: Seq::new(
                self.mem.len(),
                |j: int|
                    if self.alloc <= j < self.alloc + words.len() {
                        words[j - self.alloc]
                    } else {
                        self.mem[j]
                    },
            ),
            alloc: self.alloc + words.len(),
            ..self
        }
    }
}

impl HeapView {
    /// The words of the young object at `a`, overflow word first.
    pub open spec fn young_words(self, a: int) -> Seq<u64> {
        let s = (self.storage_start(a) - self.from.base) / 8;
        self.from.mem.subrange(s, s + self.footprint(a) / 8)
    }

    /// The young object at `a` can be copied: all of it lies in from-space.
    pub open spec fn copyable(self, a: int) -> bool {
        &&& self.whole(a)
        &&& self.young(a)
        &&& self.has_over(a) ==> self.young(a - 8)
    }
}

impl ScavView {
    /// Words still free where copies can go, plus the queue's length: no
    /// step increases it.
    pub open spec fn measure(self) -> int {
        self.heap.to.mem.len() - self.heap.to.alloc + self.heap.old.mem.len() - self.heap.old.alloc
            + self.work.len()
    }

    /// The object at `a` goes to old space: it is old enough and fits there.
    pub open spec fn tenures(self, a: int, threshold: u64) -> bool {
        next_age(self.heap.hdr(a)) >= threshold && self.heap.old.fits(self.heap.footprint(a) / 8)
    }

    /// Copy the young object at `a`: the scavenge afterwards and the copy's
    /// address, or `None` where no space has room.
    pub open spec fn evacuate(self, a: int, threshold: u64) -> Option<(ScavView, int)> {
        let h = self.heap;
        let words = h.young_words(a);
        let to_old = self.tenures(a, threshold);
        let dest = if to_old {
            h.old
        } else {
            h.to
        };
        if !dest.fits(words.len() as int) {
            None
        } else {
            let new_obj = dest.base + 8 * dest.alloc + (a - h.storage_start(a));
            let d1 = dest.pasted(words).put(new_obj, copy_header(h.hdr(a)).0);
            let from1 = h.from.put(a, (new_obj as u64) | 1);
            let h1 = if to_old {
                HeapView { from: from1, old: d1, ..h }
            } else {
                HeapView { from: from1, to: d1, ..h }
            };
            let bytes = (8 * words.len()) as u64;
            Some(
                (
                    ScavView {
                        heap: h1,
                        work: self.work.push(new_obj as usize),
                        tenured: if to_old {
                            self.tenured.push(new_obj as usize)
                        } else {
                            self.tenured
                        },
                        copied: self.copied.wrapping_add(bytes),
                        promoted: if to_old {
                            self.promoted.wrapping_add(bytes)
                        } else {
                            self.promoted
                        },
                    },
                    new_obj,
                ),
            )
        }
    }

    /// The value that replaces `v` after the scavenge: a young pointer
    /// becomes the pointer to its copy, made now if there is none yet;
    /// anything else stays. `None` where the heap is corrupt or full.
    #[verifier::opaque]
    pub open spec fn forward(self, v: Value, threshold: u64) -> Option<(ScavView, Value)> {
        if !v.tagged_ptr() || !self.heap.young(v.addr()) {
            Some((self, v))
        } else {
            let w = self.heap.read(v.addr());
            if w & 1 == 1 {
                let f = Value(w & !1u64);
                if f.tagged_ptr() {
                    Some((self, f))
                } else {
                    None
                }
            } else if !self.heap.copyable(v.addr()) {
                None
            } else {
                match self.evacuate(v.addr(), threshold) {
                    None => None,
                    Some((s, a)) => Some((s, Value(a as u64))),
                }
            }
        }
    }

    /// Forward slots `i..n` of the object at `o`.
    pub open spec fn scan_slots(self, o: int, i: int, n: int, threshold: u64) -> Option<ScavView>
        decreases n - i,
    {
        if i >= n {
            Some(self)
        } else {
            let v = self.heap.slot(o, i);
            match self.forward(v, threshold) {
                None => None,
                Some((s, f)) => {
                    let s1 = if f != v {
                        ScavView { heap: s.heap.set_slot(o, i, f), ..s }
                    } else {
                        s
                    };
                    s1.scan_slots(o, i + 1, n, threshold)
                },
            }
        }
    }

    /// Forward every slot of the object at `o`, unless its body is bytes.
    pub open spec fn scan(self, o: int, threshold: u64) -> Option<ScavView> {
        if !self.heap.whole(o) {
            None
        } else if self.heap.hdr(o).byte_format() {
            Some(self)
        } else {
            self.scan_slots(o, 0, self.heap.nslots(o) as int, threshold)
        }
    }

    /// Scan the objects `list[i..]` in order.
    pub open spec fn scan_all(self, list: Seq<usize>, i: int, threshold: u64) -> Option<ScavView>
        decreases list.len() - i,
    {
        if i >= list.len() {
            Some(self)
        } else {
            match self.scan(list[i] as int, threshold) {
                None => None,
                Some(s) => s.scan_all(list, i + 1, threshold),
            }
        }
    }

    /// Forward the values `list[i..]` in place.
    pub open spec fn forward_all(self, list: Seq<Value>, i: int, threshold: u64) -> Option<
        (ScavView, Seq<Value>),
    >
        decreases list.len() - i,
    {
        if i < 0 || i >= list.len() {
            Some((self, list))
        } else {
            match self.forward(list[i], threshold) {
                None => None,
                Some((s, f)) => s.forward_all(list.update(i, f), i + 1, threshold),
            }
        }
    }

    /// Scan queued copies, newest first, until the queue is empty.
    pub open spec fn drain(self, threshold: u64) -> Option<ScavView>
        decreases self.measure(),
        when self.heap.wf()
    {
        if self.work.len() == 0 {
            Some(self)
        } else {
            let o = self.work.last() as int;
            let s = ScavView { work: self.work.drop_last(), ..self };
            match s.scan(o, threshold) {
                None => None,
                Some(s1) => {
                    proof {
                        lemma_scan(s, o, threshold);
                    }
                    s1.drain(threshold)
                },
            }
        }
    }
}

/// Forwarding one value keeps the heap's layout and never raises the measure.
pub proof fn lemma_forward(s: ScavView, v: Value, threshold: u64)
    requires
        s.heap.wf(),
    ensures
        s.forward(v, threshold) matches Some((s1, f)) ==> s1.heap.wf() && s1.heap.layout()
            == s.heap.layout() && s1.measure() <= s.measure(),
{
    reveal(ScavView::forward);
}

pub proof fn lemma_scan_slots(s: ScavView, o: int, i: int, n: int, threshold: u64)
    requires
        s.heap.wf(),
    ensures
        s.scan_slots(o, i, n, threshold) matches Some(s1) ==> s1.heap.wf() && s1.heap.layout()
            == s.heap.layout() && s1.measure() <= s.measure(),
    decreases n - i,
{
    reveal(HeapView::write);
    if i < n {
        let v = s.heap.slot(o, i);
        lemma_forward(s, v, threshold);
        if let Some((s1, f)) = s.forward(v, threshold) {
            let s2 = if f != v {
                ScavView { heap: s1.heap.set_slot(o, i, f), ..s1 }
            } else {
                s1
            };
            lemma_scan_slots(s2, o, i + 1, n, threshold);
        }
    }
}

pub proof fn lemma_scan(s: ScavView, o: int, threshold: u64)
    requires
        s.heap.wf(),
    ensures
        s.scan(o, threshold) matches Some(s1) ==> s1.heap.wf() && s1.heap.layout()
            == s.heap.layout() && s1.measure() <= s.measure(),
{
    lemma_scan_slots(s, o, 0, s.heap.nslots(o) as int, threshold);
}

/// Queues and byte counts of a scavenge in progress.
pub struct Scavenge {
    pub work: Vec<usize>,
    pub tenured: Vec<usize>,
    pub copied: u64,
    pub promoted: u64,
}

impl Scavenge {
    /// The scavenge's state together with the heap it works on.
    pub open spec fn on(self, heap: HeapView) -> ScavView {
        ScavView {
            heap,
            work: self.work@,
            tenured: self.tenured@,
            copied: self.copied,
            promoted: self.promoted,
        }
    }

    pub fn new() -> (s: Scavenge)
        ensures
            forall|h: HeapView| #[trigger]
                s.on(h) == ScavView::start(h),
    {
        let s = Scavenge { work: Vec::new(), tenured: Vec::new(), copied: 0, promoted: 0 };
        s
    }

    fn evacuate(&mut self, heap: &mut Heap, v: Value, threshold: u64) -> (r: Option<Value>)
        requires
            old(heap).wf(),
            old(heap)@.copyable(v.addr()),
        ensures
            final(heap).wf(),
            final(heap)@.layout() == old(heap)@.layout(),
            old(self).on(old(heap)@).evacuate(v.addr(), threshold) matches Some((s, a)) ==> r == Some(
                Value(a as u64),
            ) && final(self).on(final(heap)@) == s,
            old(self).on(old(heap)@).evacuate(v.addr(), threshold) is None ==> r is None,
    {
        let hd = heap.header_of(v);
        let over = hd.num_slots_field() == HDR_NSLOTS_OVERFLOW;
        let n: u64 = heap.count_of(v);
        let extra: u64 = if over {
            1
        } else {
            0
        };
        let total: usize = (n + 1 + extra) as usize;
        let base: u64 = heap.young_from.base() as u64;
        let src: usize = ((v.0 - 8 * extra - base) / 8) as usize;
        let ghost h0 = heap@;
        let ghost words = h0.young_words(v.addr());
        assert(h0.from.mem.subrange(src as int, src + total) == words);

        let g: u64 = hd.gc_bits();
        let age: u64 = (g >> GC_AGE_SHIFT) & 7;
        proof {
            assert((g >> 3u64) & 7 <= 7 && g >> 3u64 == g >> 3u32) by (bit_vector);
        }
        let new_age: u64 = if age + 1 < 7 {
            age + 1
        } else {
            7
        };
        let wants = new_age >= threshold;
        let to_old = wants && total <= heap.old.bytes_remaining() / 8;
        if !to_old && total > heap.young_to.bytes_remaining() / 8 {
            return None;
        }
        proof {
            assert((g & 0x84) | (new_age << 3u64) <= 255 && new_age << 3u64 == new_age << 3u32
                && 128u64 | 4u64 == 0x84) by (bit_vector)
                requires
                    g <= 255,
                    new_age <= 7,
            ;
        }
        let new_hd = hd.with_gc_bits(
            (g & (GC_BIT_IMMUTABLE | GC_BIT_PINNED)) | (new_age << GC_AGE_SHIFT),
        );
        let bytes: u64 = 8 * total as u64;
        self.copied = self.copied.wrapping_add(bytes);
        let new_obj: u64;
        if to_old {
            new_obj = heap.old.top() as u64 + 8 * extra;
            heap.old.paste(&heap.young_from, src, total);
            heap.old.set(new_obj, new_hd.raw());
            self.promoted = self.promoted.wrapping_add(bytes);
            self.tenured.push(new_obj as usize);
        } else {
            new_obj = heap.young_to.top() as u64 + 8 * extra;
            heap.young_to.paste(&heap.young_from, src, total);
            heap.young_to.set(new_obj, new_hd.raw());
        }
        heap.young_from.set(v.0, new_obj | 1);
        self.work.push(new_obj as usize);
        Some(Value(new_obj))
    }

    /// The value that replaces `v`; `None` where the heap is corrupt or full.
    pub fn forward(&mut self, heap: &mut Heap, v: Value, threshold: u64) -> (r: Option<Value>)
        requires
            old(heap).wf(),
        ensures
            final(heap).wf(),
            final(heap)@.layout() == old(heap)@.layout(),
            old(self).on(old(heap)@).forward(v, threshold) matches Some((s, f)) ==> r == Some(f)
                && final(self).on(final(heap)@) == s,
            old(self).on(old(heap)@).forward(v, threshold) is None ==> r is None,
    {
        reveal(ScavView::forward);
        if !v.is_ptr() || !heap.young(v) {
            return Some(v);
        }
        proof {
            crate::value::lemma_untag_bits(v);
        }
        let w: u64 = heap.word_at(v.0);
        if w & 1 == 1 {
            let f = Value(w & !1u64);
            if f.is_ptr() {
                return Some(f);
            }
            return None;
        }
        if !heap.whole(v) {
            return None;
        }
        if heap.header_of(v).num_slots_field() == HDR_NSLOTS_OVERFLOW && !heap.young(
            Value(v.0 - 8),
        ) {
            return None;
        }
        self.evacuate(heap, v, threshold)
    }

    /// Forward every slot of the object a value denotes.
    #[verifier::loop_isolation(false)]
    #[verifier::rlimit(60)]
    pub fn scan(&mut self, heap: &mut Heap, o: Value, threshold: u64) -> (ok: bool)
        requires
            old(heap).wf(),
        ensures
            final(heap).wf(),
            final(heap)@.layout() == old(heap)@.layout(),
            ok == old(self).on(old(heap)@).scan(o.addr(), threshold) is Some,
            ok ==> Some(final(self).on(final(heap)@)) == old(self).on(old(heap)@).scan(
                o.addr(),
                threshold,
            ),
    {
        if !heap.whole(o) {
            return false;
        }
        if heap.header_of(o).is_bytes() {
            return true;
        }
        let n: u64 = heap.count_of(o);
        let mut i: u64 = 0;
        let ghost s0 = self.on(heap@);
        while i < n
            invariant
                i <= n,
                heap.wf(),
                heap@.layout() == s0.heap.layout(),
                heap@.plausible(o.addr()),
                o.addr() + 8 + 8 * n <= heap@.limit_of(o.addr()),
                s0.scan_slots(o.addr(), 0, n as int, threshold) == self.on(heap@).scan_slots(
                    o.addr(),
                    i as int,
                    n as int,
                    threshold,
                ),
            decreases n - i,
        {
            let v = heap.peek(o, i as usize);
            match self.forward(heap, v, threshold) {
                None => {
                    return false;
                },
                Some(f) => {
                    if f != v {
                        heap.poke(o, i as usize, f);
                    }
                },
            }
            i = i + 1;
        }
        true
    }

    /// Scan the objects of a list in order.
    #[verifier::loop_isolation(false)]
    #[verifier::rlimit(60)]
    pub fn scan_all(&mut self, heap: &mut Heap, list: &Vec<usize>, threshold: u64) -> (ok: bool)
        requires
            old(heap).wf(),
        ensures
            final(heap).wf(),
            final(heap)@.layout() == old(heap)@.layout(),
            ok == old(self).on(old(heap)@).scan_all(list@, 0, threshold) is Some,
            ok ==> Some(final(self).on(final(heap)@)) == old(self).on(old(heap)@).scan_all(
                list@,
                0,
                threshold,
            ),
    {
        let mut i: usize = 0;
        let ghost s0 = self.on(heap@);
        while i < list.len()
            invariant
                i <= list@.len(),
                heap.wf(),
                heap@.layout() == s0.heap.layout(),
                s0.scan_all(list@, 0, threshold) == self.on(heap@).scan_all(
                    list@,
                    i as int,
                    threshold,
                ),
            decreases list@.len() - i,
        {
            if !self.scan(heap, Value(list[i] as u64), threshold) {
                return false;
            }
            i = i + 1;
        }
        true
    }

    /// Forward every value of a list in place.
    #[verifier::loop_isolation(false)]
    #[verifier::rlimit(60)]
    pub fn forward_all(&mut self, heap: &mut Heap, list: &mut Vec<Value>, threshold: u64) -> (ok:
        bool)
        requires
            old(heap).wf(),
        ensures
            final(heap).wf(),
            final(heap)@.layout() == old(heap)@.layout(),
            ok == old(self).on(old(heap)@).forward_all(old(list)@, 0, threshold) is Some,
            ok ==> Some((final(self).on(final(heap)@), final(list)@)) == old(self).on(
                old(heap)@,
            ).forward_all(old(list)@, 0, threshold),
            final(list)@.len() == old(list)@.len(),
    {
        let mut i: usize = 0;
        let ghost s0 = self.on(heap@);
        let ghost l0 = list@;
        while i < list.len()
            invariant
                i <= list@.len(),
                list@.len() == l0.len(),
                heap.wf(),
                heap@.layout() == s0.heap.layout(),
                s0.forward_all(l0, 0, threshold) == self.on(heap@).forward_all(
                    list@,
                    i as int,
                    threshold,
                ),
            decreases list@.len() - i,
        {
            let v = list[i];
            match self.forward(heap, v, threshold) {
                None => {
                    return false;
                },
                Some(f) => {
                    list.set(i, f);
                },
            }
            i = i + 1;
        }
        true
    }

    /// Scan queued copies until the queue is empty.
    #[verifier::loop_isolation(false)]
    #[verifier::rlimit(60)]
    pub fn drain(&mut self, heap: &mut Heap, threshold: u64) -> (ok: bool)
        requires
            old(heap).wf(),
        ensures
            final(heap).wf(),
            final(heap)@.layout() == old(heap)@.layout(),
            ok == old(self).on(old(heap)@).drain(threshold) is Some,
            ok ==> Some(final(self).on(final(heap)@)) == old(self).on(old(heap)@).drain(threshold),
    {
        let ghost s0 = self.on(heap@);
        while self.work.len() > 0
            invariant
                heap.wf(),
                heap@.layout() == s0.heap.layout(),
                s0.drain(threshold) == self.on(heap@).drain(threshold),
            decreases self.on(heap@).measure(),
        {
            let ghost s1 = self.on(heap@);
            if let Some(obj) = self.work.pop() {
                let ghost s2 = self.on(heap@);
                assert(s2 == ScavView { work: s1.work.drop_last(), ..s1 });
                proof {
                    lemma_scan(s2, obj as int, threshold);
                }
                if !self.scan(heap, Value(obj as u64), threshold) {
                    return false;
                }
            }
        }
        true
    }
}

impl ScavView {
    /// A scavenge that has not begun.
    pub open spec fn start(heap: HeapView) -> ScavView {
        ScavView { heap, work: Seq::empty(), tenured: Seq::empty(), copied: 0, promoted: 0 }
    }
}

} // verus!
