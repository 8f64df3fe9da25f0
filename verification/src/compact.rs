//! The machinery of the old-space collection: marking, planning where each
//! marked object slides to, rewriting pointers, and sliding.

use crate::heap::{Header, Heap, HeapView, SpaceView};
use crate::value::Value;
use std::collections::HashMap;
use vstd::prelude::*;

verus! {

// ---------------------------------------------------------------------------
// Marking
// ---------------------------------------------------------------------------
/// Marking in progress: the heap and the marked objects still to be traced.
#[verifier::ext_equal]
pub struct MarkView {
    pub heap: HeapView,
    pub stack: Seq<usize>,
}

impl HeapView {
    /// The object at `o` is marked.
    pub open spec fn marked(self, o: int) -> bool {
        self.hdr(o).gc_field() & 1 != 0
    }

    /// The heap with the object at `o` marked.
    pub open spec fn with_mark(self, o: int) -> HeapView {
        self.write(o, self.hdr(o).regc(self.hdr(o).gc_field() | 1).0)
    }
}

/// Number of even words.
pub open spec fn evens(s: Seq<u64>) -> nat
    decreases s.len(),
{
    if s.len() == 0 {
        0
    } else {
        evens(s.drop_last()) + if s.last() & 1 == 0 {
            1nat
        } else {
            0nat
        }
    }
}

/// Making one even word odd takes one off the count.
proof fn lemma_evens(s: Seq<u64>, i: int, w: u64)
    requires
        0 <= i < s.len(),
        s[i] & 1 == 0,
        w & 1 != 0,
    ensures
        evens(s.update(i, w)) + 1 == evens(s),
    decreases s.len(),
{
    let t = s.update(i, w);
    if i == s.len() - 1 {
        assert(t.drop_last() =~= s.drop_last());
    } else {
        lemma_evens(s.drop_last(), i, w);
        assert(t.drop_last() =~= s.drop_last().update(i, w));
    }
}

impl MarkView {
    /// Even words where objects can be, plus the stack's length: no step
    /// increases it.
    pub open spec fn measure(self) -> nat {
        evens(self.heap.from.mem) + evens(self.heap.old.mem) + self.stack.len()
    }

    /// Mark the object a value points to, once, and stack it for tracing.
    pub open spec fn mark(self, v: Value) -> MarkView {
        if v.tagged_ptr() && (self.heap.young(v.addr()) || self.heap.tenured(v.addr()))
            && !self.heap.marked(v.addr()) {
            MarkView {
                heap: self.heap.with_mark(v.addr()),
                stack: self.stack.push(v.addr() as usize),
            }
        } else {
            self
        }
    }

    /// Mark what the values `list[i..]` point to.
    pub open spec fn mark_all(self, list: Seq<Value>, i: int) -> MarkView
        decreases list.len() - i,
    {
        if i < 0 || i >= list.len() {
            self
        } else {
            self.mark(list[i]).mark_all(list, i + 1)
        }
    }

    /// Mark what slots `i..n` of the object at `o` point to.
    pub open spec fn mark_slots(self, o: int, i: int, n: int) -> MarkView
        decreases n - i,
    {
        if i >= n {
            self
        } else {
            self.mark(self.heap.slot(o, i)).mark_slots(o, i + 1, n)
        }
    }

    /// Trace the object at `o`; `None` where it is not whole.
    pub open spec fn trace(self, o: int) -> Option<MarkView> {
        if !self.heap.whole(o) {
            None
        } else if self.heap.hdr(o).byte_format() {
            Some(self)
        } else {
            Some(self.mark_slots(o, 0, self.heap.nslots(o) as int))
        }
    }

    /// Trace stacked objects, newest first, until the stack is empty.
    pub open spec fn drain(self) -> Option<MarkView>
        decreases self.measure(),
        when self.heap.wf()
    {
        if self.stack.len() == 0 {
            Some(self)
        } else {
            let o = self.stack.last() as int;
            let s = MarkView { stack: self.stack.drop_last(), ..self };
            match s.trace(o) {
                None => None,
                Some(s1) => {
                    proof {
                        lemma_mark_slots(s, o, 0, s.heap.nslots(o) as int);
                    }
                    s1.drain()
                },
            }
        }
    }
}

proof fn lemma_mark(s: MarkView, v: Value)
    requires
        s.heap.wf(),
    ensures
        s.mark(v).heap.wf(),
        s.mark(v).heap.layout() == s.heap.layout(),
        s.mark(v).measure() <= s.measure(),
{
    reveal(HeapView::read);
    reveal(HeapView::write);
    let a = v.addr();
    let w = s.heap.read(a);
    let g = Header(w).gc_field();
    let w1 = Header(w).regc(g | 1).0;
    assert((w & 0xff) & 1 == 0 ==> w & 1 == 0 && ((w & !0xffu64) | ((w & 0xff) | 1)) & 1 != 0)
        by (bit_vector);
    assert((w & 0xff) & 1 == 0 || (w & 0xff) & 1 != 0);
    if v.tagged_ptr() && (s.heap.young(a) || s.heap.tenured(a)) && !s.heap.marked(a) {
        if s.heap.from.has(a) {
            lemma_evens(s.heap.from.mem, (a - s.heap.from.base) / 8, w1);
        } else {
            lemma_evens(s.heap.old.mem, (a - s.heap.old.base) / 8, w1);
        }
    }
}

pub proof fn lemma_mark_slots(s: MarkView, o: int, i: int, n: int)
    requires
        s.heap.wf(),
    ensures
        s.mark_slots(o, i, n).heap.wf(),
        s.mark_slots(o, i, n).heap.layout() == s.heap.layout(),
        s.mark_slots(o, i, n).measure() <= s.measure(),
    decreases n - i,
{
    if i < n {
        lemma_mark(s, s.heap.slot(o, i));
        lemma_mark_slots(s.mark(s.heap.slot(o, i)), o, i + 1, n);
    }
}

/// The stack of marked objects still to be traced.
pub struct Marking {
    pub stack: Vec<usize>,
}

impl Marking {
    pub open spec fn on(self, heap: HeapView) -> MarkView {
        MarkView { heap, stack: self.stack@ }
    }

    pub fn new() -> (m: Marking)
        ensures
            forall|h: HeapView| #[trigger]
                m.on(h) == (MarkView { heap: h, stack: Seq::empty() }),
    {
        let m = Marking { stack: Vec::new() };
        m
    }

    pub fn mark(&mut self, heap: &mut Heap, v: Value)
        requires
            old(heap).wf(),
        ensures
            final(heap).wf(),
            final(heap)@.layout() == old(heap)@.layout(),
            final(self).on(final(heap)@) == old(self).on(old(heap)@).mark(v),
    {
        if !v.is_ptr() || !(heap.young(v) || heap.tenured(v)) {
            return ;
        }
        proof {
            crate::value::lemma_untag_bits(v);
        }
        let h = heap.header_of(v);
        let g: u64 = h.gc_bits();
        if g & 1 != 0 {
            return ;
        }
        assert(g | 1 <= 255) by (bit_vector)
            requires
                g <= 255,
        ;
        heap.set_word_at(v.0, h.with_gc_bits(g | 1).raw());
        self.stack.push(v.0 as usize);
    }

    #[verifier::loop_isolation(false)]
    pub fn mark_all(&mut self, heap: &mut Heap, list: &Vec<Value>)
        requires
            old(heap).wf(),
        ensures
            final(heap).wf(),
            final(heap)@.layout() == old(heap)@.layout(),
            final(self).on(final(heap)@) == old(self).on(old(heap)@).mark_all(list@, 0),
    {
        let mut i: usize = 0;
        let ghost s0 = self.on(heap@);
        while i < list.len()
            invariant
                i <= list@.len(),
                heap.wf(),
                heap@.layout() == s0.heap.layout(),
                s0.mark_all(list@, 0) == self.on(heap@).mark_all(list@, i as int),
            decreases list@.len() - i,
        {
            self.mark(heap, list[i]);
            i = i + 1;
        }
    }

    #[verifier::loop_isolation(false)]
    #[verifier::rlimit(60)]
    fn trace(&mut self, heap: &mut Heap, o: Value) -> (ok: bool)
        requires
            old(heap).wf(),
        ensures
            final(heap).wf(),
            final(heap)@.layout() == old(heap)@.layout(),
            ok == old(self).on(old(heap)@).trace(o.addr()) is Some,
            ok ==> Some(final(self).on(final(heap)@)) == old(self).on(old(heap)@).trace(o.addr()),
    {
        if !heap.whole(o) {
            return false;
        }
        if heap.header_of(o).is_bytes() {
            return true;
        }
        let n: u64 = heap.count_of(o);
        let mut i: u64 = 0;
        let ghost s0 = self.on(heap@);
        while i < n
            invariant
                i <= n,
                heap.wf(),
                heap@.layout() == s0.heap.layout(),
                heap@.plausible(o.addr()),
                o.addr() + 8 + 8 * n <= heap@.limit_of(o.addr()),
                s0.mark_slots(o.addr(), 0, n as int) == self.on(heap@).mark_slots(
                    o.addr(),
                    i as int,
                    n as int,
                ),
            decreases n - i,
        {
            let v = heap.peek(o, i as usize);
            self.mark(heap, v);
            i = i + 1;
        }
        true
    }

    #[verifier::loop_isolation(false)]
    #[verifier::rlimit(60)]
    pub fn drain(&mut self, heap: &mut Heap) -> (ok: bool)
        requires
            old(heap).wf(),
        ensures
            final(heap).wf(),
            final(heap)@.layout() == old(heap)@.layout(),
            ok == old(self).on(old(heap)@).drain() is Some,
            ok ==> Some(final(self).on(final(heap)@)) == old(self).on(old(heap)@).drain(),
    {
        let ghost s0 = self.on(heap@);
        while self.stack.len() > 0
            invariant
                heap.wf(),
                heap@.layout() == s0.heap.layout(),
                s0.drain() == self.on(heap@).drain(),
            decreases self.on(heap@).measure(),
        {
            let ghost s1 = self.on(heap@);
            if let Some(obj) = self.stack.pop() {
                let ghost s2 = self.on(heap@);
                assert(s2 == MarkView { stack: s1.stack.drop_last(), ..s1 });
                proof {
                    lemma_mark_slots(s2, obj as int, 0, s2.heap.nslots(obj as int) as int);
                }
                if !self.trace(heap, Value(obj as u64)) {
                    return false;
                }
            }
        }
        true
    }
}

// ---------------------------------------------------------------------------
// Planning
// ---------------------------------------------------------------------------
/// One object's slide: where its storage starts and goes, how many words it
/// takes, and its header before and after.
#[derive(Clone, Copy)]
pub struct Move {
    pub start: u64,
    pub dest: u64,
    pub words: u64,
    pub obj: u64,
    pub new_obj: u64,
}

impl Move {
    /// The slide stays inside old space and goes left.
    pub open spec fn inside(self, l: crate::heap::Layout) -> bool {
        &&& self.start % 8 == 0
        &&& self.dest % 8 == 0
        &&& self.new_obj % 8 == 0
        &&& l.old_base <= self.dest <= self.start
        &&& self.start + 8 * self.words <= l.old_limit
        &&& self.dest <= self.new_obj < self.dest + 8 * self.words
    }
}

impl HeapView {
    /// The slide of the marked object at `o` when `next` is the first free
    /// address.
    pub open spec fn move_to(self, o: int, next: int) -> Move {
        let start = self.storage_start(o);
        Move {
            start: start as u64,
            dest: next as u64,
            words: (self.footprint(o) / 8) as u64,
            obj: o as u64,
            new_obj: (next + (o - start)) as u64,
        }
    }

    /// The marked object at `o` can slide to `next`.
    pub open spec fn movable(self, o: int, next: int) -> bool {
        &&& self.whole(o)
        &&& self.tenured(o)
        &&& self.tenured(self.storage_start(o))
        &&& next <= self.storage_start(o)
    }

    /// The slides of the marked objects among `live[i..]`, in order, and the
    /// first free address after them.
    pub open spec fn plan(self, live: Seq<usize>, i: int, next: int) -> Option<(Seq<Move>, int)>
        decreases live.len() - i,
    {
        if i < 0 || i >= live.len() {
            Some((Seq::empty(), next))
        } else {
            let o = live[i] as int;
            if !self.plausible(o) {
                None
            } else if !self.marked(o) {
                self.plan(live, i + 1, next)
            } else if !self.movable(o, next) {
                None
            } else {
                match self.plan(live, i + 1, next + self.footprint(o)) {
                    None => None,
                    Some((rest, end)) => Some((seq![self.move_to(o, next)] + rest, end)),
                }
            }
        }
    }
}

/// Where each moved object went, from the first `n` slides.
pub open spec fn relocations(moves: Seq<Move>, n: int) -> Map<u64, u64>
    decreases n,
{
    if n <= 0 {
        Map::empty()
    } else {
        relocations(moves, n - 1).insert(moves[n - 1].obj, moves[n - 1].new_obj)
    }
}

/// The map depends on the slides it was made from alone.
proof fn lemma_relocations_prefix(a: Seq<Move>, b: Seq<Move>, n: int)
    requires
        0 <= n <= a.len(),
        n <= b.len(),
        forall|i: int| 0 <= i < n ==> a[i] == b[i],
    ensures
        relocations(a, n) == relocations(b, n),
    decreases n,
{
    if n > 0 {
        lemma_relocations_prefix(a, b, n - 1);
    }
}

/// A value after the slide: pointers to moved objects follow them.
pub open spec fn relocate(fwd: Map<u64, u64>, v: Value) -> Value {
    if v.tagged_ptr() && fwd.dom().contains(v.0) {
        Value(fwd[v.0])
    } else {
        v
    }
}

/// The values of a list after the slide.
pub open spec fn relocate_all(fwd: Map<u64, u64>, list: Seq<Value>) -> Seq<Value> {
    Seq::new(list.len(), |i: int| relocate(fwd, list[i]))
}

// ---------------------------------------------------------------------------
// Rewriting and sliding
// ---------------------------------------------------------------------------
impl SpaceView {
    /// `n` words copied from index `s` to index `d`.
    pub open spec fn moved(self, s: int, d: int, n: int) -> SpaceView {
        SpaceView {
            mem: Seq::new(
                self.mem.len(),
                |j: int|
                    if d <= j < d + n {
                        self.mem[j - d + s]
                    } else {
                        self.mem[j]
                    },
            ),
            ..self
        }
    }
}

impl HeapView {
    /// The object at `o` holds a young pointer.
    pub open spec fn points_young(self, o: int) -> bool {
        &&& self.whole(o)
        &&& !self.hdr(o).byte_format()
        &&& exists|i: int|
            0 <= i < self.nslots(o) && (#[trigger] self.slot(o, i)).tagged_ptr() && self.young(
                self.slot(o, i).addr(),
            )
    }

    /// Slots `i..n` of the object at `o` rewritten.
    pub open spec fn fix_slots(self, o: int, i: int, n: int, fwd: Map<u64, u64>) -> HeapView
        decreases n - i,
    {
        if i >= n {
            self
        } else {
            let v = self.slot(o, i);
            let h = if v.tagged_ptr() && fwd.dom().contains(v.0) {
                self.set_slot(o, i, Value(fwd[v.0]))
            } else {
                self
            };
            h.fix_slots(o, i + 1, n, fwd)
        }
    }

    /// The pointers of the objects `list[i..]` rewritten, where they are
    /// marked; `None` where one of them is not whole.
    pub open spec fn fix_objects(self, list: Seq<usize>, i: int, fwd: Map<u64, u64>) -> Option<
        HeapView,
    >
        decreases list.len() - i,
    {
        if i < 0 || i >= list.len() {
            Some(self)
        } else {
            let o = list[i] as int;
            if !self.whole(o) {
                None
            } else if !self.marked(o) || self.hdr(o).byte_format() {
                self.fix_objects(list, i + 1, fwd)
            } else {
                self.fix_slots(o, 0, self.nslots(o) as int, fwd).fix_objects(list, i + 1, fwd)
            }
        }
    }

    /// One object slid; its mark is cleared, and it is remembered exactly
    /// when it holds a young pointer.
    pub open spec fn slide(self, m: Move) -> HeapView {
        let b = self.old.base;
        let h = HeapView {
            old: self.old.moved((m.start - b) / 8, (m.dest - b) / 8, m.words as int),
            ..self
        };
        let o = m.new_obj as int;
        let bits = h.hdr(o).gc_field() & !3u64;
        if h.points_young(o) {
            let h1 = h.write(o, h.hdr(o).regc(bits | 2).0);
            HeapView { ssb: h1.ssb.push(o as usize), ..h1 }
        } else {
            h.write(o, h.hdr(o).regc(bits).0)
        }
    }

    pub open spec fn slide_all(self, moves: Seq<Move>, i: int) -> HeapView
        decreases moves.len() - i,
    {
        if i < 0 || i >= moves.len() {
            self
        } else {
            self.slide(moves[i]).slide_all(moves, i + 1)
        }
    }

    /// The marks of the objects `list[i..]` cleared.
    pub open spec fn unmark_all(self, list: Seq<usize>, i: int) -> HeapView
        decreases list.len() - i,
    {
        if i < 0 || i >= list.len() {
            self
        } else {
            let o = list[i] as int;
            let h = if self.plausible(o) && self.marked(o) {
                self.write(o, self.hdr(o).regc(self.hdr(o).gc_field() & !1u64).0)
            } else {
                self
            };
            h.unmark_all(list, i + 1)
        }
    }

    /// The marked heap with its old objects slid together, every pointer in
    /// it following, and where the objects went. `None` where the heap does
    /// not hold whole objects one after the other.
    pub open spec fn compacted(self) -> Option<(HeapView, Map<u64, u64>)> {
        match (
            self.walk(self.old.base, self.old.top()),
            self.walk(self.from.base, self.from.top()),
        ) {
            (Some(live), Some(young)) => match self.plan(live, 0, self.old.base) {
                None => None,
                Some((moves, end)) => {
                    let fwd = relocations(moves, moves.len() as int);
                    match self.fix_objects(young, 0, fwd) {
                        None => None,
                        Some(h1) => match h1.fix_objects(live, 0, fwd) {
                            None => None,
                            Some(h2) => {
                                let h3 = HeapView { ssb: Seq::empty(), ..h2 }.slide_all(moves, 0);
                                let h4 = h3.unmark_all(young, 0);
                                let top = (end - self.old.base) / 8;
                                let old1 = SpaceView {
                                    alloc: top,
                                    ..h4.old.filled(top, h4.old.mem.len() - top, 0)
                                };
                                Some((HeapView { old: old1, ..h4 }, fwd))
                            },
                        },
                    }
                },
            },
            _ => None,
        }
    }
}

/// The slides of the marked objects of a list, the map they make, and the
/// first free address after them.
pub(crate) struct Plan {
    pub moves: Vec<Move>,
    pub fwd: HashMap<u64, u64>,
    pub end: u64,
}

pub(crate) fn relocated(fwd: &HashMap<u64, u64>, v: Value) -> (r: Value)
    ensures
        r == relocate(fwd@, v),
{
    broadcast use vstd::std_specs::hash::group_hash_axioms;

    if v.is_ptr() {
        match fwd.get(&v.0) {
            Some(n) => Value(*n),
            None => v,
        }
    } else {
        v
    }
}

#[verifier::loop_isolation(false)]
pub(crate) fn relocate_list(fwd: &HashMap<u64, u64>, list: &mut Vec<Value>)
    ensures
        final(list)@ == relocate_all(fwd@, old(list)@),
{
    let mut i: usize = 0;
    let ghost l0 = list@;
    while i < list.len()
        invariant
            i <= list@.len(),
            list@.len() == l0.len(),
            forall|j: int| 0 <= j < i ==> list@[j] == relocate(fwd@, l0[j]),
            forall|j: int| i <= j < l0.len() ==> list@[j] == l0[j],
        decreases list@.len() - i,
    {
        let v = relocated(fwd, list[i]);
        list.set(i, v);
        i = i + 1;
    }
    assert(list@ =~= relocate_all(fwd@, l0));
}

impl Heap {
    /// Whether the object a value denotes holds a young pointer.
    #[verifier::loop_isolation(false)]
    #[verifier::rlimit(60)]
    pub(crate) fn points_young(&self, o: Value) -> (b: bool)
        requires
            self.wf(),
        ensures
            b == self@.points_young(o.addr()),
    {
        if !self.whole(o) || self.header_of(o).is_bytes() {
            return false;
        }
        let n: u64 = self.count_of(o);
        let mut i: u64 = 0;
        while i < n
            invariant
                i <= n,
                forall|j: int|
                    0 <= j < i ==> !((#[trigger] self@.slot(o.addr(), j)).tagged_ptr()
                        && self@.young(self@.slot(o.addr(), j).addr())),
            decreases n - i,
        {
            let v = self.peek(o, i as usize);
            if v.is_ptr() && self.young(v) {
                assert(self@.slot(o.addr(), i as int) == v);
                return true;
            }
            i = i + 1;
        }
        false
    }

    #[verifier::loop_isolation(false)]
    #[verifier::rlimit(60)]
    fn plan(&self, live: &Vec<usize>) -> (r: Option<Plan>)
        requires
            self.wf(),
        ensures
            r is Some == self@.plan(live@, 0, self@.old.base) is Some,
            r matches Some(p) ==> {
                &&& self@.plan(live@, 0, self@.old.base) == Some((p.moves@, p.end as int))
                &&& p.fwd@ == relocations(p.moves@, p.moves@.len() as int)
                &&& forall|i: int|
                    0 <= i < p.moves@.len() ==> (#[trigger] p.moves@[i]).inside(self@.layout())
                &&& self@.old.base <= p.end <= self@.old.limit()
                &&& p.end % 8 == 0
            },
    {
        broadcast use vstd::std_specs::hash::group_hash_axioms;

        let mut moves: Vec<Move> = Vec::new();
        let mut fwd: HashMap<u64, u64> = HashMap::new();
        let mut next: u64 = self.old.base() as u64;
        let mut i: usize = 0;
        let ghost total = self@.plan(live@, 0, self@.old.base);
        while i < live.len()
            invariant
                i <= live@.len(),
                self@.old.base <= next <= self@.old.limit(),
                next % 8 == 0,
                total == (match self@.plan(live@, i as int, next as int) {
                    None => None,
                    Some((rest, end)) => Some((moves@ + rest, end)),
                }),
                fwd@ == relocations(moves@, moves@.len() as int),
                forall|j: int| 0 <= j < moves@.len() ==> (#[trigger] moves@[j]).inside(self@.layout()),
            decreases live@.len() - i,
        {
            let v = Value(live[i] as u64);
            if !self.plausible_at(v.0) {
                return None;
            }
            if self.header_of(v).gc_bits() & 1 != 0 {
                if !self.whole(v) || !self.tenured(v) {
                    return None;
                }
                let over = self.header_of(v).num_slots_field() == 255;
                let extra: u64 = if over {
                    8
                } else {
                    0
                };
                let start: u64 = v.0 - extra;
                if !self.tenured(Value(start)) || next > start {
                    return None;
                }
                let words: u64 = self.count_of(v) + 1 + extra / 8;
                let m = Move { start, dest: next, words, obj: v.0, new_obj: next + extra };
                assert(m == self@.move_to(v.addr(), next as int));
                let ghost before = moves@;
                moves.push(m);
                fwd.insert(v.0, next + extra);
                proof {
                    assert(moves@.len() == before.len() + 1);
                    lemma_relocations_prefix(before, moves@, before.len() as int);
                    if self@.plan(live@, i + 1, next + 8 * words) is Some {
                        let (rest, end) = self@.plan(live@, i + 1, next + 8 * words)->0;
                        assert(before + (seq![m] + rest) =~= moves@ + rest);
                    }
                }
                next = next + 8 * words;
            }
            i = i + 1;
        }
        proof {
            assert(moves@ + Seq::<Move>::empty() =~= moves@);
        }
        Some(Plan { moves, fwd, end: next })
    }
}

impl Heap {
    #[verifier::loop_isolation(false)]
    #[verifier::rlimit(60)]
    fn fix_slots(&mut self, o: Value, n: u64, fwd: &HashMap<u64, u64>)
        requires
            old(self).wf(),
            old(self)@.plausible(o.addr()),
            o.addr() + 8 + 8 * n <= old(self)@.limit_of(o.addr()),
        ensures
            final(self).wf(),
            final(self)@.layout() == old(self)@.layout(),
            final(self)@ == old(self)@.fix_slots(o.addr(), 0, n as int, fwd@),
    {
        broadcast use vstd::std_specs::hash::group_hash_axioms;

        let mut i: u64 = 0;
        let ghost h0 = self@;
        while i < n
            invariant
                i <= n,
                self.wf(),
                self@.layout() == h0.layout(),
                h0.fix_slots(o.addr(), 0, n as int, fwd@) == self@.fix_slots(
                    o.addr(),
                    i as int,
                    n as int,
                    fwd@,
                ),
            decreases n - i,
        {
            let v = self.peek(o, i as usize);
            if v.is_ptr() {
                if let Some(a) = fwd.get(&v.0) {
                    let a: u64 = *a;
                    self.poke(o, i as usize, Value(a));
                }
            }
            i = i + 1;
        }
    }

    #[verifier::loop_isolation(false)]
    #[verifier::rlimit(60)]
    fn fix_objects(&mut self, list: &Vec<usize>, fwd: &HashMap<u64, u64>) -> (ok: bool)
        requires
            old(self).wf(),
        ensures
            final(self).wf(),
            final(self)@.layout() == old(self)@.layout(),
            ok == old(self)@.fix_objects(list@, 0, fwd@) is Some,
            ok ==> Some(final(self)@) == old(self)@.fix_objects(list@, 0, fwd@),
    {
        let mut i: usize = 0;
        let ghost h0 = self@;
        while i < list.len()
            invariant
                i <= list@.len(),
                self.wf(),
                self@.layout() == h0.layout(),
                h0.fix_objects(list@, 0, fwd@) == self@.fix_objects(list@, i as int, fwd@),
            decreases list@.len() - i,
        {
            let o = Value(list[i] as u64);
            if !self.whole(o) {
                return false;
            }
            let h = self.header_of(o);
            if h.gc_bits() & 1 != 0 && !h.is_bytes() {
                let n: u64 = self.count_of(o);
                self.fix_slots(o, n, fwd);
            }
            i = i + 1;
        }
        true
    }

    fn slide(&mut self, m: Move)
        requires
            old(self).wf(),
            m.inside(old(self)@.layout()),
        ensures
            final(self).wf(),
            final(self)@.layout() == old(self)@.layout(),
            final(self)@ == old(self)@.slide(m),
    {
        let b: u64 = self.old.base() as u64;
        self.old.shift(
            ((m.start - b) / 8) as usize,
            ((m.dest - b) / 8) as usize,
            m.words as usize,
        );
        let o = Value(m.new_obj);
        let h = self.header_of(o);
        let g: u64 = h.gc_bits();
        assert(g & !3u64 <= 255 && (g & !3u64) | 2 <= 255) by (bit_vector)
            requires
                g <= 255,
        ;
        let bits: u64 = g & !3u64;
        if self.points_young(o) {
            self.set_word_at(o.0, h.with_gc_bits(bits | 2).raw());
            self.ssb.push(o.0 as usize);
        } else {
            self.set_word_at(o.0, h.with_gc_bits(bits).raw());
        }
    }

    #[verifier::loop_isolation(false)]
    fn slide_all(&mut self, moves: &Vec<Move>)
        requires
            old(self).wf(),
            forall|i: int|
                0 <= i < moves@.len() ==> (#[trigger] moves@[i]).inside(old(self)@.layout()),
        ensures
            final(self).wf(),
            final(self)@.layout() == old(self)@.layout(),
            final(self)@ == old(self)@.slide_all(moves@, 0),
    {
        let mut i: usize = 0;
        let ghost h0 = self@;
        while i < moves.len()
            invariant
                i <= moves@.len(),
                self.wf(),
                self@.layout() == h0.layout(),
                h0.slide_all(moves@, 0) == self@.slide_all(moves@, i as int),
            decreases moves@.len() - i,
        {
            let m = moves[i];
            self.slide(m);
            i = i + 1;
        }
    }

    #[verifier::loop_isolation(false)]
    #[verifier::rlimit(60)]
    fn unmark_all(&mut self, list: &Vec<usize>)
        requires
            old(self).wf(),
        ensures
            final(self).wf(),
            final(self)@.layout() == old(self)@.layout(),
            final(self)@ == old(self)@.unmark_all(list@, 0),
    {
        let mut i: usize = 0;
        let ghost h0 = self@;
        while i < list.len()
            invariant
                i <= list@.len(),
                self.wf(),
                self@.layout() == h0.layout(),
                h0.unmark_all(list@, 0) == self@.unmark_all(list@, i as int),
            decreases list@.len() - i,
        {
            let o = Value(list[i] as u64);
            if self.plausible_at(o.0) {
                let h = self.header_of(o);
                let g: u64 = h.gc_bits();
                if g & 1 != 0 {
                    assert(g & !1u64 <= 255) by (bit_vector)
                        requires
                            g <= 255,
                    ;
                    self.set_word_at(o.0, h.with_gc_bits(g & !1u64).raw());
                }
            }
            i = i + 1;
        }
    }

    /// Slide the marked old objects together and rewrite every pointer in
    /// the heap; the map tells where the objects went.
    pub(crate) fn compact(&mut self) -> (r: Option<HashMap<u64, u64>>)
        requires
            old(self).wf(),
        ensures
            final(self).wf(),
            final(self)@.layout() == old(self)@.layout(),
            r is Some == old(self)@.compacted() is Some,
            r matches Some(fwd) ==> old(self)@.compacted() == Some((final(self)@, fwd@)),
    {
        let ghost h0 = self@;
        let live = match self.walk_region(self.old.base(), self.old.top()) {
            Some(l) => l,
            None => {
                return None;
            },
        };
        let young = match self.walk_region(self.young_from.base(), self.young_from.top()) {
            Some(l) => l,
            None => {
                return None;
            },
        };
        let plan = match self.plan(&live) {
            Some(p) => p,
            None => {
                return None;
            },
        };
        if !self.fix_objects(&young, &plan.fwd) {
            return None;
        }
        if !self.fix_objects(&live, &plan.fwd) {
            return None;
        }
        self.ssb = Vec::new();
        self.slide_all(&plan.moves);
        self.unmark_all(&young);
        let top: usize = ((plan.end - self.old.base() as u64) / 8) as usize;
        self.old.truncate_to(top);
        Some(plan.fwd)
    }
}

} // verus!
