//! Laws that relate operations of the machine to one another.

use crate::graph::{lemma_reads_after_write, listed};
use crate::heap::HeapView;
use crate::machine::Machine;
use crate::run::RunExit;
use crate::treaty::{
    LIST_HEAD, LIST_TAIL, LOOKUP_CACHE_SIZE, METHOD_VMSTATE, NUM_PRIORITIES,
};
use crate::value::Value;
use crate::vm::VmView;
use vstd::prelude::*;

verus! {

// ---------------------------------------------------------------------------
// Runs
// ---------------------------------------------------------------------------
/// A run can be cut anywhere: `n` turns and then `k` more are `n + k` turns.
pub proof fn law_turns_add_up(m: Machine, target: int, n: nat, k: nat)
    ensures
        m.turned(target, n + k) == (match m.turned(target, n) {
            Ok((m1, RunExit::Turns)) => m1.turned(target, k),
            other => other,
        }),
    decreases n,
{
    if n > 0 {
        if let Ok((m1, RunExit::Turns)) = m.turn(target) {
            law_turns_add_up(m1, target, (n - 1) as nat, k);
            assert((n + k - 1) as nat == (n - 1) as nat + k);
        }
    }
}

// ---------------------------------------------------------------------------
// Identity
// ---------------------------------------------------------------------------
/// An identity hash, once given, is given again, and changes nothing more.
pub proof fn law_hash_is_stable(v: VmView, x: Value)
    requires
        v.heap.wf(),
        x.tagged_int() || v.heap.plausible(x.addr()),
    ensures
        v.hashed(x).0.hashed(x) == v.hashed(x),
{
    if !x.tagged_int() && v.heap.hdr(x.addr()).hash_field() == 0 {
        let n = crate::vm::next_hash(v.hash_counter);
        let c = v.hash_counter.wrapping_add(1);
        assert(c & 0x3fffff <= 0x3fffff) by (bit_vector);
        let h = v.heap.hdr(x.addr());
        crate::heap::lemma_header_update(h, n as u64, 0);
        lemma_reads_after_write(v.heap, x.addr(), h.hashed(n as u64).0);
    }
}

/// The first place of a name does not change when another is added after.
proof fn lemma_bytes_index(names: Seq<Seq<u8>>, name: Seq<u8>, i: int)
    requires
        0 <= i <= names.len(),
        crate::boot::bytes_index(names, name, i) == names.len(),
    ensures
        crate::boot::bytes_index(names.push(name), name, i) == names.len(),
    decreases names.len() - i,
{
    if i < names.len() {
        assert(names.push(name)[i] == names[i]);
        lemma_bytes_index(names, name, i + 1);
    }
}

proof fn lemma_bytes_index_range(names: Seq<Seq<u8>>, name: Seq<u8>, i: int)
    requires
        0 <= i <= names.len(),
    ensures
        i <= crate::boot::bytes_index(names, name, i) <= names.len(),
    decreases names.len() - i,
{
    if i < names.len() && names[i] != name {
        lemma_bytes_index_range(names, name, i + 1);
    }
}

/// Interning the same characters again gives the same symbol and changes
/// nothing.
pub proof fn law_intern_once(v: VmView, name: Seq<u8>)
    requires
        v.symbols.len() == v.symbol_names.len(),
    ensures
        v.interned(name) matches Some((v1, s)) ==> v1.interned(name) == Some((v1, s)),
{
    lemma_bytes_index_range(v.symbol_names, name, 0);
    if crate::boot::bytes_index(v.symbol_names, name, 0) == v.symbol_names.len() {
        lemma_bytes_index(v.symbol_names, name, 0);
    }
}

// ---------------------------------------------------------------------------
// The write barrier
// ---------------------------------------------------------------------------
/// A store reads back, and an old object that gets a young pointer is
/// remembered from then on; one that was remembered is not listed again.
pub proof fn law_barrier_remembers(h: HeapView, o: int, i: int, v: Value)
    requires
        h.wf(),
        h.whole(o),
        0 <= i < h.nslots(o),
    ensures
        h.store(o, i, v).slot(o, i) == v,
        v.tagged_ptr() && h.young(v.addr()) && h.tenured(o) ==> h.store(o, i, v).is_remembered(o)
            && (h.is_remembered(o) || listed(h.store(o, i, v).ssb, o)),
        h.is_remembered(o) ==> h.store(o, i, v).ssb == h.ssb,
{
    let x = o + 8 + 8 * i;
    assert(h.plausible(x));
    lemma_reads_after_write(h, x, v.0);
    let h1 = h.set_slot(o, i, v);
    assert(h1.read(o) == h.read(o));
    let hd = h1.hdr(o);
    let g = hd.gc_field();
    crate::heap::lemma_header_update(hd, 0, 0);
    assert(g | 2 <= 255 && (g | 2) & 2 != 0) by (bit_vector)
        requires
            g <= 255,
    ;
    crate::heap::lemma_header_update(hd, 0, g | 2);
    lemma_reads_after_write(h1, o, hd.regc(g | 2).0);
    let w = h1.write(o, hd.regc(g | 2).0);
    let r = HeapView { ssb: w.ssb.push(o as usize), ..w };
    assert(forall|y: int| #[trigger] r.read(y) == w.read(y)) by {
        reveal(HeapView::read);
    }
    crate::graph::lemma_listed_push(w.ssb, o as usize);
    assert(h1.plausible(x));
    assert(w.read(x) == h1.read(x));
}

// ---------------------------------------------------------------------------
// Method lookup
// ---------------------------------------------------------------------------
impl VmView {
    /// Every entry of the lookup cache says what a search would find.
    pub open spec fn coherent(self) -> bool {
        &&& self.cache.len() == LOOKUP_CACHE_SIZE
        &&& forall|i: int|
            0 <= i < self.cache.len() && (#[trigger] self.cache[i]).class_index != 0
                ==> self.lookup(self.cache[i].class_index, self.cache[i].selector).0 == Some(
                self.cache[i].method,
            )
    }
}

/// A lookup through a coherent cache finds what a search of the classes
/// finds, and leaves the cache coherent.
pub proof fn law_cache_agrees(v: VmView, class: u32, selector: Value)
    requires
        v.coherent(),
        class != 0,
    ensures
        v.cached_lookup(class, selector).1 == v.lookup(class, selector).0,
        v.cached_lookup(class, selector).0.coherent(),
{
    reveal(VmView::cached_lookup);
    let slot = crate::sends::cache_slot(class, selector);
    assert(0 <= slot < LOOKUP_CACHE_SIZE);
    let w = v.cached_lookup(class, selector).0;
    assert forall|c: u32, s: Value| #[trigger] w.lookup(c, s) == v.lookup(c, s) by {
        lemma_same_lookup(v, w, c, s);
    }
}

/// A search looks at the heap, the class table and nil alone.
proof fn lemma_same_lookup(v: VmView, w: VmView, class: u32, selector: Value)
    requires
        w.heap == v.heap,
        w.class_table == v.class_table,
        w.nil() == v.nil(),
    ensures
        w.lookup(class, selector) == v.lookup(class, selector),
{
    if class < v.class_table.len() {
        lemma_same_chain(v, w, v.class_table[class as int], selector, v.heap.words());
    }
}

proof fn lemma_same_chain(v: VmView, w: VmView, cls: Value, selector: Value, fuel: nat)
    requires
        w.heap == v.heap,
        w.nil() == v.nil(),
    ensures
        w.lookup_chain(cls, selector, fuel) == v.lookup_chain(cls, selector, fuel),
    decreases fuel,
{
    if fuel > 0 {
        lemma_same_chain(
            v,
            w,
            v.heap.slot(cls.addr(), crate::treaty::BEHAVIOR_SUPERCLASS as int),
            selector,
            (fuel - 1) as nat,
        );
    }
}

/// Flushing the caches, which every installation of a method ends with, and
/// beginning a collection make the lookup cache coherent.
pub proof fn law_flush_is_coherent(v: VmView)
    ensures
        v.flushed().coherent(),
        v.collection_begun().coherent(),
{
}

// ---------------------------------------------------------------------------
// Scheduling
// ---------------------------------------------------------------------------
/// The process that runs next comes from the front of the highest run queue
/// that has one, and there is one exactly when some queue has one.
pub proof fn law_next_is_highest(v: VmView)
    ensures
        v.next_runnable().1 == (match v.ceiling() {
            Some(p) => Some(v.field(v.field(v.run_queues(), p - 1), LIST_HEAD as int)),
            None => None,
        }),
        v.ceiling() is None ==> v.next_runnable().0 == v,
{
    lemma_next_below(v, NUM_PRIORITIES as nat);
}

proof fn lemma_next_below(v: VmView, prio: nat)
    requires
        prio <= NUM_PRIORITIES,
    ensures
        v.next_below(prio).1 == (match v.ceiling_below(prio) {
            Some(p) => Some(v.field(v.field(v.run_queues(), p - 1), LIST_HEAD as int)),
            None => None,
        }),
        v.ceiling_below(prio) is None ==> v.next_below(prio).0 == v,
    decreases prio,
{
    if prio > 0 {
        let q = v.field(v.run_queues(), prio - 1);
        assert(v.dequeued(q, LIST_HEAD as int, LIST_TAIL as int).1 == if v.field(
            q,
            LIST_HEAD as int,
        ) == v.nil() {
            None
        } else {
            Some(v.field(q, LIST_HEAD as int))
        }) by {
            reveal(VmView::dequeued);
        }
        if v.field(q, LIST_HEAD as int) == v.nil() {
            assert(v.dequeued(q, LIST_HEAD as int, LIST_TAIL as int).0 == v) by {
                reveal(VmView::dequeued);
            }
            lemma_next_below(v, (prio - 1) as nat);
        }
    }
}

proof fn lemma_kept_times(times: Seq<i64>, now: i64, n: int)
    requires
        0 <= n <= times.len(),
    ensures
        forall|i: int|
            0 <= i < crate::sched::kept_times(times, now, n).len()
                ==> #[trigger] crate::sched::kept_times(times, now, n)[i] > now,
    decreases n,
{
    if n > 0 {
        lemma_kept_times(times, now, n - 1);
        let rest = crate::sched::kept_times(times, now, n - 1);
        let all = crate::sched::kept_times(times, now, n);
        assert forall|i: int| 0 <= i < all.len() implies #[trigger] all[i] > now by {
            if i < rest.len() {
                assert(rest[i] > now);
            }
        }
    }
}

proof fn lemma_signal_keeps_timers(v: VmView, list: Seq<Value>, i: int)
    ensures
        v.signaled_all(list, i).timer_times == v.timer_times,
        v.signaled_all(list, i).now_ns == v.now_ns,
    decreases list.len() - i,
{
    if 0 <= i < list.len() {
        assert(v.signaled(list[i]).timer_times == v.timer_times && v.signaled(list[i]).now_ns
            == v.now_ns) by {
            reveal(VmView::signaled);
            reveal(VmView::dequeued);
            reveal(VmView::made_runnable);
            reveal(VmView::enqueued);
            reveal(VmView::with_stored);
            reveal(VmView::with_field);
        }
        lemma_signal_keeps_timers(v.signaled(list[i]), list, i + 1);
    }
}

/// Once the timers have been served none is due.
pub proof fn law_served_timers_are_gone(v: VmView)
    ensures
        !v.timers_served().timer_due(),
{
    reveal(VmView::timers_served);
    let now = v.now_ms();
    let n = v.timer_times.len() as int;
    lemma_kept_times(v.timer_times, now, n);
    let v1 = VmView {
        timer_times: crate::sched::kept_times(v.timer_times, now, n),
        timer_sems: crate::sched::sems_where(v.timer_times, v.timer_sems, now, false, n),
        ..v
    };
    lemma_signal_keeps_timers(
        v1,
        crate::sched::sems_where(v.timer_times, v.timer_sems, now, true, n),
        0,
    );
}

// ---------------------------------------------------------------------------
// Compiled code
// ---------------------------------------------------------------------------
/// A tiering state reads back.
proof fn lemma_vmstate(v: VmView, method: Value, vs: i64)
    requires
        v.heap.wf(),
        v.heap.shaped(method.addr(), METHOD_VMSTATE + 1),
        crate::value::SMALLINT_MIN <= vs <= crate::value::SMALLINT_MAX,
    ensures
        v.with_vmstate(method, vs).vmstate(method) == vs,
        v.with_vmstate(method, vs).heap.wf(),
        v.with_vmstate(method, vs).heap.shaped(method.addr(), METHOD_VMSTATE + 1),
        v.with_vmstate(method, vs).jit == v.jit,
{
    reveal(VmView::with_field);
    reveal(VmView::field);
    let a = method.addr();
    let x = a + 8 + 8 * METHOD_VMSTATE;
    assert(v.heap.plausible(x));
    lemma_reads_after_write(v.heap, x, crate::value::tag(vs).0);
    crate::value::lemma_tag_bits(vs);
    let h = v.heap.set_slot(a, METHOD_VMSTATE as int, crate::value::tag(vs));
    assert(h.read(a) == v.heap.read(a));
    if v.heap.has_over(a) {
        assert(h.read(a - 8) == v.heap.read(a - 8));
    }
    assert(h.slot(a, METHOD_VMSTATE as int) == crate::value::tag(vs));
    assert(v.with_vmstate(method, vs).heap == h);
    assert(v.with_vmstate(method, vs).field(method, METHOD_VMSTATE as int) == crate::value::tag(
        vs,
    ));
}

/// A method whose code was unlinked has none.
pub proof fn law_unlinked_has_no_code(v: VmView, method: Value)
    requires
        v.heap.wf(),
        v.heap.shaped(method.addr(), METHOD_VMSTATE + 1),
    ensures
        v.unlinked(method).live_handle(method) is None,
{
    reveal(VmView::unlinked);
    let f = v.field(method, METHOD_VMSTATE as int);
    if let Some(j) = v.jit {
        if f.tagged_int() {
            let vs = f.int_value();
            crate::jit::law_state_kept(vs);
            lemma_kept_range(vs);
            if let Some(i) = crate::jit::handle_index(vs) {
                if i < j.handles.len() {
                    let v1 = VmView {
                        ctr: crate::counters::CountersView {
                            jit_unlinks: v.ctr.jit_unlinks.wrapping_add(1),
                            ..v.ctr
                        },
                        ..v.with_jit(
                            j.with_handle(
                                i,
                                crate::jit::HandleView { live: false, ..j.handles[i] },
                            ),
                        )
                    };
                    lemma_vmstate(v1, method, crate::jit::state_kept(vs));
                }
            }
        } else {
            assert(crate::jit::handle_index(0) is None) by {
                crate::jit::law_state_kept(0);
                lemma_kept_range(0);
            }
        }
    }
}

proof fn lemma_kept_range(vs: i64)
    ensures
        0 <= crate::jit::state_kept(vs) <= 0x4_ffff,
        vs == 0 ==> crate::jit::state_kept(vs) == 0,
{
    assert(0 <= (vs & 0xffff) | (vs & 0x4_0000) <= 0x4_ffff && (vs == 0 ==> (vs & 0xffff) | (vs
        & 0x4_0000) == 0)) by (bit_vector);
}

/// After a flush no method has code.
pub proof fn law_flush_drops_code(v: VmView, method: Value)
    requires
        v.jit is Some,
    ensures
        v.code_flushed() matches Some(v1) ==> v1.live_handle(method) is None,
{
    reveal(VmView::code_flushed);
    let j = v.jit->0;
    let v1 = v.with_jit(
        crate::jit::JitView {
            code: j.code.take(j.glue_end),
            handles: Seq::empty(),
            methods: Seq::empty(),
            queue: Seq::empty(),
            ..j
        },
    );
    crate::jit::lemma_states_jit(v1, j.methods, 0);
    crate::jit::lemma_handle_range(v1.states_cleared(j.methods, 0).vmstate(method));
}

// ---------------------------------------------------------------------------
// Observers
// ---------------------------------------------------------------------------
/// Observers that are off change nothing: without a profile no poll and no
/// boundary leaves a sample or takes back a request for one, and with the
/// switch closed no instruction, send or poll is counted.
pub proof fn law_observers_off(m: Machine, op: u8, pseudo: Seq<char>)
    ensures
        !m.vm.prof.active ==> m.sampled_at_poll() == m && m.vm.boundary(pseudo) == m.vm,
        !m.vm.ctr.gate ==> m.vm.ctr.dispatched(op) == m.vm.ctr && m.send_counted() == m
            && m.gap_recorded() == m,
{
    reveal(Machine::sampled_at_poll);
}

} // verus!
