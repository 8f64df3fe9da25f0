//! The collector: a copying scavenge of the young generation with age-based
//! tenuring and a remembered set, and a sliding mark-compact of old space.
//!
//! Stack objects are scanned as ordinary pointer objects, since every word
//! of a stack is a valid tagged value at all times. The running process's
//! stack is a root in its own right, because stores into it skip the write
//! barrier.

use crate::compact::{relocate_list, MarkView, Marking};
use crate::heap::{Heap, HeapView};
use crate::jit::JitView;
use crate::scavenge::{ScavView, Scavenge};
use crate::value::Value;
use crate::vm::{fatal, Fault, LookupEntry, Vm, VmError, VmView};
use crate::treaty::{
    GC_BIT_REMEMBERED, LOOKUP_CACHE_SIZE, PROCESS_STACK,
};
use vstd::prelude::*;

verus! {

// ---------------------------------------------------------------------------
// Pause clocks
// ---------------------------------------------------------------------------
/// [`std::time::Instant`], carried from the start of a pause to its end.
#[verifier::external_type_specification]
#[verifier::external_body]
pub struct ExInstant(std::time::Instant);

/// Calls [`std::time::Instant::now`]. Nothing is claimed of the reading.
#[verifier::external_body]
fn clock_now() -> (t: std::time::Instant) {
    std::time::Instant::now()
}

/// Calls [`std::time::Instant::elapsed`] and gives the nanoseconds. Nothing
/// is claimed of the reading.
#[verifier::external_body]
fn clock_ns(since: &std::time::Instant) -> (ns: u64) {
    since.elapsed().as_nanos() as u64
}

// ---------------------------------------------------------------------------
// Roots
// ---------------------------------------------------------------------------
/// The parts of the compiled-code state that hold references.
pub open spec fn queue_of(j: Option<JitView>) -> Seq<Value> {
    match j {
        Some(j) => j.queue,
        None => Seq::empty(),
    }
}

pub open spec fn methods_of(j: Option<JitView>) -> Seq<Value> {
    match j {
        Some(j) => j.methods,
        None => Seq::empty(),
    }
}

impl VmView {
    /// Every reference the machine holds outside the heap.
    pub open spec fn roots(self) -> Seq<Value> {
        self.specials + self.class_table + self.temp_roots + self.sites + self.symbols
            + self.timer_sems + queue_of(self.jit) + methods_of(self.jit) + seq![self.active]
    }

    /// The machine with its references replaced, in the order of
    /// [`VmView::roots`].
    pub open spec fn with_roots(self, r: Seq<Value>) -> VmView {
        let a = self.specials.len() as int;
        let b = a + self.class_table.len();
        let c = b + self.temp_roots.len();
        let d = c + self.sites.len();
        let e = d + self.symbols.len();
        let f = e + self.timer_sems.len();
        let g = f + queue_of(self.jit).len();
        let h = g + methods_of(self.jit).len();
        VmView {
            specials: r.subrange(0, a),
            class_table: r.subrange(a, b),
            temp_roots: r.subrange(b, c),
            sites: r.subrange(c, d),
            symbols: r.subrange(d, e),
            timer_sems: r.subrange(e, f),
            jit: match self.jit {
                Some(j) => Some(
                    JitView { queue: r.subrange(f, g), methods: r.subrange(g, h), ..j },
                ),
                None => None,
            },
            active: r[h],
            ..self
        }
    }
}

pub(crate) fn push_all(dst: &mut Vec<Value>, src: &Vec<Value>)
    ensures
        final(dst)@ == old(dst)@ + src@,
{
    let mut i: usize = 0;
    while i < src.len()
        invariant
            i <= src@.len(),
            dst@ == old(dst)@ + src@.subrange(0, i as int),
        decreases src@.len() - i,
    {
        dst.push(src[i]);
        assert(src@.subrange(0, i + 1) =~= src@.subrange(0, i as int).push(src@[i as int]));
        i = i + 1;
        assert(dst@ =~= old(dst)@ + src@.subrange(0, i as int));
    }
    assert(src@.subrange(0, i as int) =~= src@);
}

pub(crate) fn copy_range(src: &Vec<Value>, from: usize, to: usize) -> (out: Vec<Value>)
    requires
        from <= to <= src@.len(),
    ensures
        out@ == src@.subrange(from as int, to as int),
{
    let mut out: Vec<Value> = Vec::new();
    let mut i: usize = from;
    while i < to
        invariant
            from <= i <= to <= src@.len(),
            out@ == src@.subrange(from as int, i as int),
        decreases to - i,
    {
        out.push(src[i]);
        i = i + 1;
        assert(out@ =~= src@.subrange(from as int, i as int));
    }
    out
}

impl Vm {
    /// Every reference the machine holds outside the heap.
    fn gather_roots(&self) -> (r: Vec<Value>)
        ensures
            r@ == self@.roots(),
    {
        let mut r: Vec<Value> = Vec::new();
        push_all(&mut r, &self.specials);
        push_all(&mut r, &self.class_table);
        push_all(&mut r, &self.temp_roots);
        push_all(&mut r, &self.site_registry);
        push_all(&mut r, &self.symbols);
        push_all(&mut r, &self.timer_sems);
        if let Some(j) = &self.jit {
            push_all(&mut r, &j.queue);
            push_all(&mut r, &j.methods);
        }
        r.push(self.active_process);
        assert(r@ =~= self@.roots());
        r
    }

    /// Replace every reference the machine holds outside the heap.
    fn scatter_roots(&mut self, r: Vec<Value>)
        requires
            old(self).wf(),
            r@.len() == old(self)@.roots().len(),
        ensures
            final(self).wf(),
            final(self)@ == old(self)@.with_roots(r@),
            final(self).counters == old(self).counters,
    {
        proof {
            assert(self.specials@.len() + self.class_table@.len() + self.temp_roots@.len()
                + self.site_registry@.len() + self.symbols@.len() + self.timer_sems@.len()
                + queue_of(self@.jit).len() + methods_of(self@.jit).len() + 1 == r@.len());
        }
        let a: usize = self.specials.len();
        let total: usize = r.len();
        let b: usize = a + self.class_table.len();
        let c: usize = b + self.temp_roots.len();
        let d: usize = c + self.site_registry.len();
        let e: usize = d + self.symbols.len();
        let f: usize = e + self.timer_sems.len();
        self.specials = copy_range(&r, 0, a);
        self.class_table = copy_range(&r, a, b);
        self.temp_roots = copy_range(&r, b, c);
        self.site_registry = copy_range(&r, c, d);
        self.symbols = copy_range(&r, d, e);
        self.timer_sems = copy_range(&r, e, f);
        let mut h: usize = f;
        let ghost j0 = self.jit;
        match &mut self.jit {
            Some(j) => {
                let g: usize = f + j.queue.len();
                h = g + j.methods.len();
                j.queue = copy_range(&r, f, g);
                j.methods = copy_range(&r, g, h);
            },
            None => {},
        }
        self.active_process = r[h];
        assert(self@.symbol_names =~= old(self)@.symbol_names);
    }
}

// ---------------------------------------------------------------------------
// The remembered set
// ---------------------------------------------------------------------------
/// An increasing list with one more element, once.
pub open spec fn with_element(s: Seq<usize>, x: usize) -> Seq<usize>
    decreases s.len(),
{
    if s.len() == 0 || s.last() < x {
        s.push(x)
    } else if s.last() == x {
        s
    } else {
        with_element(s.drop_last(), x).push(s.last())
    }
}

/// The elements of `list[..n]` in increasing order, each once.
pub open spec fn in_order(list: Seq<usize>, n: int) -> Seq<usize>
    decreases n,
{
    if n <= 0 {
        Seq::empty()
    } else {
        with_element(in_order(list, n - 1), list[n - 1])
    }
}

/// Where the suffix of an increasing list is above `x`, an element goes
/// before that suffix.
proof fn lemma_with_element(s: Seq<usize>, x: usize, k: int)
    requires
        0 <= k <= s.len(),
        forall|j: int| k <= j < s.len() ==> s[j] > x,
        k > 0 ==> s[k - 1] <= x,
    ensures
        with_element(s, x) == (if k > 0 && s[k - 1] == x {
            s
        } else {
            s.subrange(0, k).push(x) + s.subrange(k, s.len() as int)
        }),
    decreases s.len(),
{
    if k == s.len() {
        assert(s.subrange(0, k) =~= s);
        assert(s.subrange(0, k).push(x) + s.subrange(k, s.len() as int) =~= s.push(x));
    } else {
        let t = s.drop_last();
        lemma_with_element(t, x, k);
        if k > 0 && s[k - 1] == x {
            assert(t.push(s.last()) =~= s);
        } else {
            assert(t.subrange(0, k) =~= s.subrange(0, k));
            assert((t.subrange(0, k).push(x) + t.subrange(k, t.len() as int)).push(s.last())
                =~= s.subrange(0, k).push(x) + s.subrange(k, s.len() as int));
        }
    }
}

/// Add an element to an increasing list, once.
fn add_element(s: &mut Vec<usize>, x: usize)
    ensures
        final(s)@ == with_element(old(s)@, x),
{
    let mut k: usize = s.len();
    while k > 0 && s[k - 1] > x
        invariant
            k <= s@.len(),
            s@ == old(s)@,
            forall|j: int| k <= j < s@.len() ==> s@[j] > x,
        decreases k,
    {
        k = k - 1;
    }
    proof {
        lemma_with_element(old(s)@, x, k as int);
    }
    if k > 0 && s[k - 1] == x {
        return ;
    }
    s.insert(k, x);
    assert(s@ =~= old(s)@.subrange(0, k as int).push(x) + old(s)@.subrange(
        k as int,
        old(s)@.len() as int,
    ));
}

/// Add every element of a list to an increasing list, each once.
fn add_elements(s: &mut Vec<usize>, list: &Vec<usize>, Ghost(all): Ghost<Seq<usize>>, Ghost(done): Ghost<int>)
    requires
        0 <= done,
        done + list@.len() <= all.len(),
        forall|i: int| 0 <= i < list@.len() ==> all[done + i] == list@[i],
        old(s)@ == in_order(all, done),
    ensures
        final(s)@ == in_order(all, done + list@.len()),
{
    let mut i: usize = 0;
    while i < list.len()
        invariant
            i <= list@.len(),
            0 <= done,
            forall|i: int| 0 <= i < list@.len() ==> all[done + i] == list@[i],
            s@ == in_order(all, done + i),
        decreases list@.len() - i,
    {
        add_element(s, list[i]);
        i = i + 1;
    }
}

impl HeapView {
    /// The objects `list[i..]` remembered exactly where they hold young
    /// pointers.
    pub open spec fn recheck(self, list: Seq<usize>, i: int) -> HeapView
        decreases list.len() - i,
    {
        if i < 0 || i >= list.len() {
            self
        } else {
            let o = list[i] as int;
            let g = self.hdr(o).gc_field();
            let h = if !self.plausible(o) {
                self
            } else if self.points_young(o) {
                let h1 = if g & 2 == 0 {
                    self.write(o, self.hdr(o).regc(g | 2).0)
                } else {
                    self
                };
                HeapView { ssb: h1.ssb.push(o as usize), ..h1 }
            } else if g & 2 != 0 {
                self.write(o, self.hdr(o).regc(g & !2u64).0)
            } else {
                self
            };
            h.recheck(list, i + 1)
        }
    }

    /// The two young spaces exchanged, and the one now spare emptied.
    pub open spec fn flipped(self) -> HeapView {
        HeapView { from: self.to, to: self.from.emptied(), ..self }
    }
}

impl Heap {
    #[verifier::loop_isolation(false)]
    #[verifier::rlimit(60)]
    fn recheck(&mut self, list: &Vec<usize>)
        requires
            old(self).wf(),
        ensures
            final(self).wf(),
            final(self)@.layout() == old(self)@.layout(),
            final(self)@ == old(self)@.recheck(list@, 0),
    {
        let mut i: usize = 0;
        let ghost h0 = self@;
        while i < list.len()
            invariant
                i <= list@.len(),
                self.wf(),
                self@.layout() == h0.layout(),
                h0.recheck(list@, 0) == self@.recheck(list@, i as int),
            decreases list@.len() - i,
        {
            let o = Value(list[i] as u64);
            if self.plausible_at(o.0) {
                let young = self.points_young(o);
                let h = self.header_of(o);
                let g: u64 = h.gc_bits();
                assert(g | 2 <= 255 && g & !2u64 <= 255) by (bit_vector)
                    requires
                        g <= 255,
                ;
                if young {
                    if g & GC_BIT_REMEMBERED == 0 {
                        self.set_word_at(o.0, h.with_gc_bits(g | GC_BIT_REMEMBERED).raw());
                    }
                    self.ssb.push(o.0 as usize);
                } else if g & GC_BIT_REMEMBERED != 0 {
                    self.set_word_at(o.0, h.with_gc_bits(g & !GC_BIT_REMEMBERED).raw());
                }
            }
            i = i + 1;
        }
    }

    fn flip(&mut self)
        requires
            old(self).wf(),
        ensures
            final(self).wf(),
            final(self)@ == old(self)@.flipped(),
    {
        std::mem::swap(&mut self.young_from, &mut self.young_to);
        self.young_to.reset();
    }
}

// ---------------------------------------------------------------------------
// The scavenge
// ---------------------------------------------------------------------------
impl ScavView {
    /// The scavenge after the running process's stack was forwarded and
    /// scanned, and the stack when it lies in old space.
    pub open spec fn stack_scanned(self, active: Value, nil: Value, threshold: u64) -> Option<
        (ScavView, Seq<usize>),
    > {
        let p = active.addr();
        if !active.tagged_ptr() || active == nil {
            Some((self, Seq::empty()))
        } else if !self.heap.shaped(p, PROCESS_STACK + 1) {
            None
        } else {
            let stack = self.heap.slot(p, PROCESS_STACK as int);
            if !stack.tagged_ptr() || stack == nil {
                Some((self, Seq::empty()))
            } else {
                match self.forward(stack, threshold) {
                    None => None,
                    Some((s, f)) => {
                        let s1 = if f != stack {
                            ScavView { heap: s.heap.set_slot(p, PROCESS_STACK as int, f), ..s }
                        } else {
                            s
                        };
                        match s1.scan(f.addr(), threshold) {
                            None => None,
                            Some(s2) => Some(
                                (
                                    s2,
                                    if s2.heap.tenured(f.addr()) {
                                        seq![f.addr() as usize]
                                    } else {
                                        Seq::empty()
                                    },
                                ),
                            ),
                        }
                    },
                }
            }
        }
    }
}

/// The roots, the running stack, what the remembered set names, and all
/// that these reach, copied.
pub struct Survivors {
    pub scav: ScavView,
    pub roots: Seq<Value>,
    /// Old objects that may point young.
    pub suspects: Seq<usize>,
}

impl VmView {
    /// Copy everything that is reachable; `None` where the heap is corrupt
    /// or full.
    pub open spec fn survivors(self) -> Option<Survivors> {
        let t = self.tenure;
        match ScavView::start(self.heap).forward_all(self.roots(), 0, t) {
            None => None,
            Some((s1, roots)) => {
                let v = self.with_roots(roots);
                match s1.stack_scanned(v.active, v.nil(), t) {
                    None => None,
                    Some((s2, stack)) => {
                        let ssb = s2.heap.ssb;
                        let s3 = ScavView {
                            heap: HeapView { ssb: Seq::empty(), ..s2.heap },
                            ..s2
                        };
                        match s3.scan_all(ssb, 0, t) {
                            None => None,
                            Some(s4) => match s4.drain(t) {
                                None => None,
                                Some(s5) => Some(
                                    Survivors {
                                        scav: s5,
                                        roots,
                                        suspects: ssb + s5.tenured + stack,
                                    },
                                ),
                            },
                        }
                    },
                }
            },
        }
    }

    /// The machine with a collection counted and the lookup cache emptied.
    pub open spec fn collection_begun(self) -> VmView {
        VmView {
            epoch: self.epoch.wrapping_add(1),
            cache: crate::vm::no_entries(),
            ..self
        }
    }

    /// The machine after a scavenge.
    #[verifier::opaque]
    pub open spec fn scavenged(self) -> Result<VmView, Fault> {
        let v0 = self.boundary("<vm:scavenge>"@);
        let v1 = VmView { scavenges: v0.scavenges.wrapping_add(1), ..v0.collection_begun() };
        match v1.survivors() {
            None => Err(Fault::Broken("corrupt or full heap in a young collection"@)),
            Some(sv) => {
                let drained = v1.heap.ssb.len() as u64;
                let list = in_order(sv.suspects, sv.suspects.len() as int);
                let heap = sv.scav.heap.flipped().recheck(list, 0);
                Ok(
                    VmView {
                        heap,
                        ctr: crate::counters::CountersView {
                            gc_bytes_copied: v1.ctr.gc_bytes_copied.wrapping_add(sv.scav.copied),
                            gc_bytes_tenured: v1.ctr.gc_bytes_tenured.wrapping_add(
                                sv.scav.promoted,
                            ),
                            gc_ssb_drained: v1.ctr.gc_ssb_drained.wrapping_add(drained),
                            gc_ssb_drained_max: if drained > v1.ctr.gc_ssb_drained_max {
                                drained
                            } else {
                                v1.ctr.gc_ssb_drained_max
                            },
                            gc_remembered_rebuilt: v1.ctr.gc_remembered_rebuilt.wrapping_add(
                                heap.ssb.len() as u64,
                            ),
                            ..v1.ctr
                        },
                        ..v1.with_roots(sv.roots)
                    },
                )
            },
        }
    }
}

/// What an operation of the machine answers and leaves behind: the planned
/// value and state, or the planned fault.
pub open spec fn outcome<T>(r: Result<T, VmError>, after: VmView, planned: Result<(VmView, T), Fault>) -> bool {
    match planned {
        Ok((v, t)) => r is Ok && r->Ok_0 == t && after == v,
        Err(f) => r is Err && r->Err_0.tells(f, after),
    }
}

/// As [`outcome`], for an operation that answers nothing.
pub open spec fn done(r: Result<(), VmError>, after: VmView, planned: Result<VmView, Fault>) -> bool {
    match planned {
        Ok(v) => r is Ok && after == v,
        Err(f) => r is Err && r->Err_0.tells(f, after),
    }
}

impl Vm {
    pub(crate) fn clear_lookup_cache(&mut self)
        requires
            old(self).wf(),
        ensures
            final(self).wf(),
            final(self)@ == (VmView { cache: crate::vm::no_entries(), ..old(self)@ }),
            final(self).counters == old(self).counters,
    {
        let mut i: usize = 0;
        while i < LOOKUP_CACHE_SIZE
            invariant
                i <= LOOKUP_CACHE_SIZE,
                self.wf(),
                self@ == (VmView { cache: self@.cache, ..old(self)@ }),
                self.counters == old(self).counters,
                forall|j: int| 0 <= j < i ==> self@.cache[j] == crate::vm::no_entry(),
            decreases LOOKUP_CACHE_SIZE - i,
        {
            let ghost v = self@;
            self.lookup_cache.set(i, LookupEntry::default());
            assert(self@.symbol_names == v.symbol_names);
            i = i + 1;
        }
        assert(self@.cache =~= crate::vm::no_entries());
    }

    /// Copy everything that is reachable.
    fn copy_survivors(&mut self, sc: &mut Scavenge) -> (r: Option<Vec<usize>>)
        requires
            old(self).wf(),
            forall|h: HeapView| #[trigger] old(sc).on(h) == ScavView::start(h),
        ensures
            final(self).wf(),
            match old(self)@.survivors() {
                None => r is None,
                Some(sv) => {
                    &&& r is Some
                    &&& final(sc).on(final(self)@.heap) == sv.scav
                    &&& final(self)@ == (VmView {
                        heap: sv.scav.heap,
                        ..old(self)@.with_roots(sv.roots)
                    })
                    &&& r->0@ == in_order(sv.suspects, sv.suspects.len() as int)
                },
            },
            final(self)@.temp_roots.len() == old(self)@.temp_roots.len(),
            final(self).counters == old(self).counters,
    {
        let t: u64 = self.tenure_threshold;
        let ghost v0 = self@;
        let mut roots = self.gather_roots();
        if !sc.forward_all(&mut self.heap, &mut roots, t) {
            return None;
        }
        let ghost roots1 = roots@;
        let ghost s1 = sc.on(self.heap@);
        self.scatter_roots(roots);
        let ghost v1 = v0.with_roots(roots1);
        assert(self@ == VmView { heap: s1.heap, ..v1 });
        let mut stack: Vec<usize> = Vec::new();
        let nil = self.nil();
        let p = self.active_process;
        if p.is_ptr() && p != nil {
            if !self.heap.shaped(p, PROCESS_STACK + 1) {
                return None;
            }
            let st = self.heap.peek(p, PROCESS_STACK);
            if st.is_ptr() && st != nil {
                let f = match sc.forward(&mut self.heap, st, t) {
                    Some(f) => f,
                    None => {
                        return None;
                    },
                };
                if f != st {
                    self.heap.poke(p, PROCESS_STACK, f);
                }
                if !sc.scan(&mut self.heap, f, t) {
                    return None;
                }
                if self.heap.tenured(f) {
                    stack.push(f.0 as usize);
                }
            }
        }
        let ghost s2 = sc.on(self.heap@);
        proof {
            let (_, found) = s1.stack_scanned(v1.active, v1.nil(), t)->0;
            assert(stack@ =~= found);
        }
        assert(s1.stack_scanned(v1.active, v1.nil(), t) == Some((s2, stack@)));
        let mut ssb: Vec<usize> = Vec::new();
        std::mem::swap(&mut ssb, &mut self.heap.ssb);
        if !sc.scan_all(&mut self.heap, &ssb, t) {
            return None;
        }
        if !sc.drain(&mut self.heap, t) {
            return None;
        }
        let ghost all = ssb@ + sc.tenured@ + stack@;
        let mut list: Vec<usize> = Vec::new();
        add_elements(&mut list, &ssb, Ghost(all), Ghost(0));
        add_elements(&mut list, &sc.tenured, Ghost(all), Ghost(ssb@.len() as int));
        add_elements(&mut list, &stack, Ghost(all), Ghost((ssb@.len() + sc.tenured@.len()) as int));
        Some(list)
    }

    /// Scavenge the young generation. Called where the registers have been
    /// saved to the active process.
    pub fn collect_young(&mut self) -> (r: Result<(), VmError>)
        requires
            old(self).wf(),
        ensures
            final(self).wf(),
            done(r, final(self)@, old(self)@.scavenged()),
            r is Ok ==> final(self)@.temp_roots.len() == old(self)@.temp_roots.len(),
            final(self)@.temp_roots.len() >= old(self)@.temp_roots.len(),
            final(self).counters.compact_ns == old(self).counters.compact_ns,
    {
        reveal(VmView::scavenged);
        self.sample_boundary("<vm:scavenge>");
        let start = clock_now();
        self.gc_epoch = self.gc_epoch.wrapping_add(1);
        self.scavenge_count = self.scavenge_count.wrapping_add(1);
        self.clear_lookup_cache();
        let ghost v1 = self@;
        let drained: u64 = self.heap.ssb.len() as u64;
        let mut sc = Scavenge::new();
        let list = match self.copy_survivors(&mut sc) {
            Some(l) => l,
            None => {
                return fatal("corrupt or full heap in a young collection");
            },
        };
        self.heap.flip();
        self.heap.recheck(&list);
        let rebuilt: u64 = self.heap.ssb.len() as u64;
        let c = &mut self.counters;
        c.gc_bytes_copied = c.gc_bytes_copied.wrapping_add(sc.copied);
        c.gc_bytes_tenured = c.gc_bytes_tenured.wrapping_add(sc.promoted);
        c.gc_ssb_drained = c.gc_ssb_drained.wrapping_add(drained);
        if drained > c.gc_ssb_drained_max {
            c.gc_ssb_drained_max = drained;
        }
        c.gc_remembered_rebuilt = c.gc_remembered_rebuilt.wrapping_add(rebuilt);
        c.scavenge_ns = c.scavenge_ns.wrapping_add(clock_ns(&start));
        Ok(())
    }
}

// ---------------------------------------------------------------------------
// The compaction
// ---------------------------------------------------------------------------
impl VmView {
    /// Everything the machine's references reach, marked; `None` where the
    /// heap is corrupt.
    pub open spec fn marked_heap(self) -> Option<HeapView> {
        match (MarkView { heap: self.heap, stack: Seq::empty() }).mark_all(
            self.roots(),
            0,
        ).drain() {
            None => None,
            Some(m) => Some(m.heap),
        }
    }

    /// The machine after a scavenge and a compaction of old space.
    #[verifier::opaque]
    pub open spec fn compacted(self) -> Result<VmView, Fault> {
        match self.boundary("<vm:compact>"@).scavenged() {
            Err(f) => Err(f),
            Ok(v) => {
                let v1 = VmView { compacts: v.compacts.wrapping_add(1), ..v.collection_begun() };
                match v1.marked_heap() {
                    None => Err(Fault::Broken("corrupt heap in an old collection"@)),
                    Some(h) => match h.compacted() {
                        None => Err(Fault::Broken("corrupt heap in an old collection"@)),
                        Some((heap, fwd)) => Ok(
                            VmView {
                                heap,
                                ..v1.with_roots(crate::compact::relocate_all(fwd, v1.roots()))
                            },
                        ),
                    },
                }
            },
        }
    }
}

impl Vm {
    /// Mark everything the machine's references reach.
    fn mark_reachable(&mut self) -> (ok: bool)
        requires
            old(self).wf(),
        ensures
            final(self).wf(),
            ok == old(self)@.marked_heap() is Some,
            ok ==> final(self)@ == (VmView { heap: old(self)@.marked_heap()->0, ..old(self)@ }),
            final(self)@.temp_roots == old(self)@.temp_roots,
    {
        let roots = self.gather_roots();
        let mut m = Marking::new();
        m.mark_all(&mut self.heap, &roots);
        m.drain(&mut self.heap)
    }

    /// Scavenge, then slide the live objects of old space together. The
    /// first old objects, nil, true and false, are always live, so they
    /// never move.
    #[verifier::rlimit(60)]
    #[verifier::spinoff_prover]
    pub fn collect_old(&mut self) -> (r: Result<(), VmError>)
        requires
            old(self).wf(),
        ensures
            final(self).wf(),
            done(r, final(self)@, old(self)@.compacted()),
            r is Ok ==> final(self)@.temp_roots.len() == old(self)@.temp_roots.len(),
            final(self)@.temp_roots.len() >= old(self)@.temp_roots.len(),
    {
        reveal(VmView::compacted);
        self.sample_boundary("<vm:compact>");
        self.collect_young()?;
        let start = clock_now();
        self.gc_epoch = self.gc_epoch.wrapping_add(1);
        self.compact_count = self.compact_count.wrapping_add(1);
        self.clear_lookup_cache();
        let ghost v1 = self@;
        if !self.mark_reachable() {
            return fatal("corrupt heap in an old collection");
        }
        let fwd = match self.heap.compact() {
            Some(f) => f,
            None => {
                return fatal("corrupt heap in an old collection");
            },
        };
        let mut roots = self.gather_roots();
        assert(roots@ =~= v1.roots());
        relocate_list(&fwd, &mut roots);
        self.scatter_roots(roots);
        self.counters.compact_ns = self.counters.compact_ns.wrapping_add(clock_ns(&start));
        Ok(())
    }
}

} // verus!
