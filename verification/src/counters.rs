//! Exact counters of what the machine does, in two tiers.
//!
//! Always-on counters are single additions on paths that are slow anyway:
//! cache misses, primitive dispatch, collection, unwinding. Gated counters
//! (per-opcode histogram, instruction and send counts, the distribution of
//! gaps between polls) sit on the hottest paths behind `gate`.

use crate::treaty::{
    OP_ADD, OP_AT, OP_ATPUT, OP_BREAK, OP_CAPTURE, OP_CLASSOF, OP_DIV, OP_EQNUM, OP_GE, OP_GETBOX,
    OP_GETIVAR, OP_GT, OP_IDEQ, OP_JUMP, OP_JUMPFALSE, OP_JUMPTRUE, OP_LE, OP_LOADFALSE,
    OP_LOADINT, OP_LOADK, OP_LOADNIL, OP_LOADSELF, OP_LOADTRUE, OP_LT, OP_MKBOX, OP_MKCLOSURE,
    OP_MOD, OP_MOVE, OP_MUL, OP_NLR, OP_NOP, OP_NOT, OP_PRIM, OP_RET, OP_RETSELF, OP_SEND,
    OP_SENDSUPER, OP_SETBOX, OP_SETIVAR, OP_SIZE, OP_SUB, SPECSEL_COUNT,
};
use vstd::prelude::*;

verus! {

/// Log2 bucket count for the inter-poll gap histogram.
pub const GAP_BUCKETS: usize = 40;

/// Number of primitive numbers counted.
pub const PRIM_COUNTERS: usize = 4096;

pub struct Counters {
    // --- Always-on: send machinery ---
    pub inline_cache_miss: u64,
    pub global_cache_miss: u64,
    pub dict_walks: u64,
    pub dict_classes_walked: u64,
    pub dnu: u64,
    pub must_be_boolean: u64,
    pub sends_staged: u64,
    /// Specialized-send slow-path entries, per specialized selector.
    pub spec_fallthrough: Vec<u64>,
    // --- Always-on: primitives, indexed by primitive number ---
    pub prim_calls: Vec<u64>,
    pub prim_fails: Vec<u64>,
    // --- Always-on: collection ---
    /// Nanoseconds spent in scavenges and in compactions.
    pub scavenge_ns: u64,
    pub compact_ns: u64,
    pub gc_bytes_copied: u64,
    pub gc_bytes_tenured: u64,
    pub gc_ssb_drained: u64,
    pub gc_ssb_drained_max: u64,
    pub gc_remembered_rebuilt: u64,
    // --- Always-on: control events ---
    pub process_switches: u64,
    pub semaphore_blocks: u64,
    pub unwind_runs: u64,
    pub ensure_interceptions: u64,
    pub nlrs: u64,
    pub cache_flushes: u64,
    pub method_installs: u64,
    // --- Always-on: host interface work ---
    pub bitblt_calls: u64,
    pub pixels_blitted: u64,
    pub glyphs_drawn: u64,
    pub events_processed: u64,
    pub frames_presented: u64,
    // --- Always-on: compiled code ---
    pub jit_trips: u64,
    pub jit_queue_drops: u64,
    pub jit_installs: u64,
    pub jit_unlinks: u64,
    pub jit_enters: u64,
    pub jit_exits: u64,
    pub jit_sites_direct: u64,
    pub jit_sites_interp: u64,
    pub jit_samples_native: u64,
    // --- Gated tier ---
    pub gate: bool,
    pub insns: u64,
    pub sends: u64,
    pub opcode_hist: Vec<u64>,
    /// Instructions executed since the last safepoint poll, and the
    /// distribution of those gaps in log2 buckets.
    pub gap_current: u64,
    pub gap_max: u64,
    pub gap_hist: Vec<u64>,
}

/// What the counters hold. The two pause clocks are left out: they measure
/// the host, not the machine.
#[verifier::ext_equal]
pub struct CountersView {
    pub inline_cache_miss: u64,
    pub global_cache_miss: u64,
    pub dict_walks: u64,
    pub dict_classes_walked: u64,
    pub dnu: u64,
    pub must_be_boolean: u64,
    pub sends_staged: u64,
    pub gc_bytes_copied: u64,
    pub gc_bytes_tenured: u64,
    pub gc_ssb_drained: u64,
    pub gc_ssb_drained_max: u64,
    pub gc_remembered_rebuilt: u64,
    pub process_switches: u64,
    pub semaphore_blocks: u64,
    pub unwind_runs: u64,
    pub ensure_interceptions: u64,
    pub nlrs: u64,
    pub cache_flushes: u64,
    pub method_installs: u64,
    pub bitblt_calls: u64,
    pub pixels_blitted: u64,
    pub glyphs_drawn: u64,
    pub events_processed: u64,
    pub frames_presented: u64,
    pub jit_trips: u64,
    pub jit_queue_drops: u64,
    pub jit_installs: u64,
    pub jit_unlinks: u64,
    pub jit_enters: u64,
    pub jit_exits: u64,
    pub jit_sites_direct: u64,
    pub jit_sites_interp: u64,
    pub jit_samples_native: u64,
    pub spec_fallthrough: Seq<u64>,
    pub prim_calls: Seq<u64>,
    pub prim_fails: Seq<u64>,
    pub gate: bool,
    pub insns: u64,
    pub sends: u64,
    pub opcode_hist: Seq<u64>,
    pub gap_current: u64,
    pub gap_max: u64,
    pub gap_hist: Seq<u64>,
}

impl View for Counters {
    type V = CountersView;

    open spec fn view(&self) -> CountersView {
        CountersView {
            inline_cache_miss: self.inline_cache_miss,
            global_cache_miss: self.global_cache_miss,
            dict_walks: self.dict_walks,
            dict_classes_walked: self.dict_classes_walked,
            dnu: self.dnu,
            must_be_boolean: self.must_be_boolean,
            sends_staged: self.sends_staged,
            gc_bytes_copied: self.gc_bytes_copied,
            gc_bytes_tenured: self.gc_bytes_tenured,
            gc_ssb_drained: self.gc_ssb_drained,
            gc_ssb_drained_max: self.gc_ssb_drained_max,
            gc_remembered_rebuilt: self.gc_remembered_rebuilt,
            process_switches: self.process_switches,
            semaphore_blocks: self.semaphore_blocks,
            unwind_runs: self.unwind_runs,
            ensure_interceptions: self.ensure_interceptions,
            nlrs: self.nlrs,
            cache_flushes: self.cache_flushes,
            method_installs: self.method_installs,
            bitblt_calls: self.bitblt_calls,
            pixels_blitted: self.pixels_blitted,
            glyphs_drawn: self.glyphs_drawn,
            events_processed: self.events_processed,
            frames_presented: self.frames_presented,
            jit_trips: self.jit_trips,
            jit_queue_drops: self.jit_queue_drops,
            jit_installs: self.jit_installs,
            jit_unlinks: self.jit_unlinks,
            jit_enters: self.jit_enters,
            jit_exits: self.jit_exits,
            jit_sites_direct: self.jit_sites_direct,
            jit_sites_interp: self.jit_sites_interp,
            jit_samples_native: self.jit_samples_native,
            gate: self.gate,
            insns: self.insns,
            sends: self.sends,
            gap_current: self.gap_current,
            gap_max: self.gap_max,
            spec_fallthrough: self.spec_fallthrough@,
            prim_calls: self.prim_calls@,
            prim_fails: self.prim_fails@,
            opcode_hist: self.opcode_hist@,
            gap_hist: self.gap_hist@,
        }
    }
}

/// A table of `n` zeros.
pub open spec fn zeros(n: nat) -> Seq<u64> {
    Seq::new(n, |i: int| 0u64)
}

/// The table with entry `i` one higher, wrapping at the top.
pub open spec fn bumped(t: Seq<u64>, i: int) -> Seq<u64> {
    t.update(i, t[i].wrapping_add(1))
}

/// The log2 bucket of an inter-poll gap: how many bits it takes to write,
/// at most the last bucket.
pub open spec fn gap_bucket(g: u64) -> int
    decreases g,
{
    if g == 0 {
        0
    } else {
        let b = 1 + gap_bucket(g / 2);
        if b < 39 {
            b
        } else {
            39
        }
    }
}

impl CountersView {
    pub open spec fn wf(self) -> bool {
        &&& self.spec_fallthrough.len() == SPECSEL_COUNT
        &&& self.prim_calls.len() == PRIM_COUNTERS
        &&& self.prim_fails.len() == PRIM_COUNTERS
        &&& self.opcode_hist.len() == 256
        &&& self.gap_hist.len() == GAP_BUCKETS
    }

    /// Every counter zero, the switch as given.
    pub open spec fn zero(gate: bool) -> CountersView {
        CountersView {
            inline_cache_miss: 0,
            global_cache_miss: 0,
            dict_walks: 0,
            dict_classes_walked: 0,
            dnu: 0,
            must_be_boolean: 0,
            sends_staged: 0,
            gc_bytes_copied: 0,
            gc_bytes_tenured: 0,
            gc_ssb_drained: 0,
            gc_ssb_drained_max: 0,
            gc_remembered_rebuilt: 0,
            process_switches: 0,
            semaphore_blocks: 0,
            unwind_runs: 0,
            ensure_interceptions: 0,
            nlrs: 0,
            cache_flushes: 0,
            method_installs: 0,
            bitblt_calls: 0,
            pixels_blitted: 0,
            glyphs_drawn: 0,
            events_processed: 0,
            frames_presented: 0,
            jit_trips: 0,
            jit_queue_drops: 0,
            jit_installs: 0,
            jit_unlinks: 0,
            jit_enters: 0,
            jit_exits: 0,
            jit_sites_direct: 0,
            jit_sites_interp: 0,
            jit_samples_native: 0,
            insns: 0,
            sends: 0,
            gap_current: 0,
            gap_max: 0,
            gate,
            spec_fallthrough: zeros(SPECSEL_COUNT as nat),
            prim_calls: zeros(PRIM_COUNTERS as nat),
            prim_fails: zeros(PRIM_COUNTERS as nat),
            opcode_hist: zeros(256),
            gap_hist: zeros(GAP_BUCKETS as nat),
        }
    }

    /// After a poll: the gap since the last one is recorded.
    pub open spec fn gap_recorded(self) -> CountersView {
        CountersView {
            gap_current: 0,
            gap_max: if self.gap_current > self.gap_max {
                self.gap_current
            } else {
                self.gap_max
            },
            gap_hist: bumped(self.gap_hist, gap_bucket(self.gap_current)),
            ..self
        }
    }

    /// After dispatching one instruction, when the switch is open.
    pub open spec fn dispatched(self, op: u8) -> CountersView {
        if self.gate {
            CountersView {
                insns: self.insns.wrapping_add(1),
                opcode_hist: bumped(self.opcode_hist, op as int),
                gap_current: self.gap_current.wrapping_add(1),
                ..self
            }
        } else {
            self
        }
    }
}

fn zero_table(n: usize) -> (t: Vec<u64>)
    ensures
        t@ == zeros(n as nat),
{
    let t: Vec<u64> = vec![0u64; n];
    assert(t@ =~= zeros(n as nat));
    t
}

/// Add one to an entry of a table, wrapping at the top.
pub(crate) fn bump_at(t: &mut Vec<u64>, i: usize)
    requires
        i < old(t)@.len(),
    ensures
        final(t)@ == bumped(old(t)@, i as int),
{
    let x: u64 = t[i];
    t.set(i, x.wrapping_add(1));
}

impl Counters {
    pub fn new() -> (c: Counters)
        ensures
            c@ == CountersView::zero(false),
            c@.wf(),
            c.scavenge_ns == 0,
            c.compact_ns == 0,
    {
        Counters {
            inline_cache_miss: 0,
            global_cache_miss: 0,
            dict_walks: 0,
            dict_classes_walked: 0,
            dnu: 0,
            must_be_boolean: 0,
            sends_staged: 0,
            gc_bytes_copied: 0,
            gc_bytes_tenured: 0,
            gc_ssb_drained: 0,
            gc_ssb_drained_max: 0,
            gc_remembered_rebuilt: 0,
            process_switches: 0,
            semaphore_blocks: 0,
            unwind_runs: 0,
            ensure_interceptions: 0,
            nlrs: 0,
            cache_flushes: 0,
            method_installs: 0,
            bitblt_calls: 0,
            pixels_blitted: 0,
            glyphs_drawn: 0,
            events_processed: 0,
            frames_presented: 0,
            jit_trips: 0,
            jit_queue_drops: 0,
            jit_installs: 0,
            jit_unlinks: 0,
            jit_enters: 0,
            jit_exits: 0,
            jit_sites_direct: 0,
            jit_sites_interp: 0,
            jit_samples_native: 0,
            scavenge_ns: 0,
            compact_ns: 0,
            insns: 0,
            sends: 0,
            gap_current: 0,
            gap_max: 0,
            gate: false,
            spec_fallthrough: zero_table(SPECSEL_COUNT),
            prim_calls: zero_table(PRIM_COUNTERS),
            prim_fails: zero_table(PRIM_COUNTERS),
            opcode_hist: zero_table(256),
            gap_hist: zero_table(GAP_BUCKETS),
        }
    }

    /// Zero every counter; the switch is kept.
    pub fn reset(&mut self)
        ensures
            final(self)@ == CountersView::zero(old(self)@.gate),
            final(self)@.wf(),
            final(self).scavenge_ns == 0,
            final(self).compact_ns == 0,
    {
        let gate = self.gate;
        *self = Counters::new();
        self.gate = gate;
    }

    /// Record a completed inter-poll instruction gap.
    pub fn record_gap(&mut self)
        requires
            old(self)@.wf(),
        ensures
            final(self)@ == old(self)@.gap_recorded(),
            final(self)@.wf(),
            final(self).scavenge_ns == old(self).scavenge_ns,
            final(self).compact_ns == old(self).compact_ns,
    {
        let g: u64 = self.gap_current;
        self.gap_current = 0;
        if g > self.gap_max {
            self.gap_max = g;
        }
        let b: usize = bucket_of(g);
        bump_at(&mut self.gap_hist, b);
    }

    /// Count one dispatched instruction when the switch is open.
    pub(crate) fn dispatch(&mut self, op: u8)
        requires
            old(self)@.wf(),
        ensures
            final(self)@ == old(self)@.dispatched(op),
            final(self)@.wf(),
            final(self).scavenge_ns == old(self).scavenge_ns,
            final(self).compact_ns == old(self).compact_ns,
    {
        if self.gate {
            self.insns = self.insns.wrapping_add(1);
            bump_at(&mut self.opcode_hist, op as usize);
            self.gap_current = self.gap_current.wrapping_add(1);
        }
    }
}

fn bucket_of(g: u64) -> (b: usize)
    ensures
        b == gap_bucket(g),
        b < GAP_BUCKETS,
    decreases g,
{
    if g == 0 {
        0
    } else {
        let b: usize = 1 + bucket_of(g / 2);
        if b < 39 {
            b
        } else {
            39
        }
    }
}

impl Default for Counters {
    fn default() -> (c: Counters)
        ensures
            c@ == CountersView::zero(false),
            c@.wf(),
    {
        Counters::new()
    }
}

/// The mnemonic of an opcode.
pub open spec fn mnemonic(op: u8) -> Option<Seq<char>> {
    if op == OP_NOP {
        Some("NOP"@)
    } else if op == OP_BREAK {
        Some("BREAK"@)
    } else if op == OP_MOVE {
        Some("MOVE"@)
    } else if op == OP_LOADK {
        Some("LOADK"@)
    } else if op == OP_LOADINT {
        Some("LOADINT"@)
    } else if op == OP_LOADNIL {
        Some("LOADNIL"@)
    } else if op == OP_LOADTRUE {
        Some("LOADTRUE"@)
    } else if op == OP_LOADFALSE {
        Some("LOADFALSE"@)
    } else if op == OP_LOADSELF {
        Some("LOADSELF"@)
    } else if op == OP_GETIVAR {
        Some("GETIVAR"@)
    } else if op == OP_SETIVAR {
        Some("SETIVAR"@)
    } else if op == OP_GETBOX {
        Some("GETBOX"@)
    } else if op == OP_SETBOX {
        Some("SETBOX"@)
    } else if op == OP_MKBOX {
        Some("MKBOX"@)
    } else if op == OP_SEND {
        Some("SEND"@)
    } else if op == OP_SENDSUPER {
        Some("SENDSUPER"@)
    } else if op == OP_RET {
        Some("RET"@)
    } else if op == OP_RETSELF {
        Some("RETSELF"@)
    } else if op == OP_NLR {
        Some("NLR"@)
    } else if op == OP_PRIM {
        Some("PRIM"@)
    } else if op == OP_MKCLOSURE {
        Some("MKCLOSURE"@)
    } else if op == OP_CAPTURE {
        Some("CAPTURE"@)
    } else if op == OP_JUMP {
        Some("JUMP"@)
    } else if op == OP_JUMPTRUE {
        Some("JUMPTRUE"@)
    } else if op == OP_JUMPFALSE {
        Some("JUMPFALSE"@)
    } else if op == OP_ADD {
        Some("ADD"@)
    } else if op == OP_SUB {
        Some("SUB"@)
    } else if op == OP_MUL {
        Some("MUL"@)
    } else if op == OP_DIV {
        Some("DIV"@)
    } else if op == OP_MOD {
        Some("MOD"@)
    } else if op == OP_LT {
        Some("LT"@)
    } else if op == OP_GT {
        Some("GT"@)
    } else if op == OP_LE {
        Some("LE"@)
    } else if op == OP_GE {
        Some("GE"@)
    } else if op == OP_EQNUM {
        Some("EQNUM"@)
    } else if op == OP_AT {
        Some("AT"@)
    } else if op == OP_ATPUT {
        Some("ATPUT"@)
    } else if op == OP_SIZE {
        Some("SIZE"@)
    } else if op == OP_CLASSOF {
        Some("CLASSOF"@)
    } else if op == OP_NOT {
        Some("NOT"@)
    } else if op == OP_IDEQ {
        Some("IDEQ"@)
    } else {
        None
    }
}

/// The mnemonic of an opcode, or `None` for an unknown one.
pub fn opcode_name(op: u8) -> (r: Option<&'static str>)
    ensures
        r is Some == mnemonic(op) is Some,
        r is Some ==> r->0@ == mnemonic(op)->0,
{
    if op == OP_NOP {
        Some("NOP")
    } else if op == OP_BREAK {
        Some("BREAK")
    } else if op == OP_MOVE {
        Some("MOVE")
    } else if op == OP_LOADK {
        Some("LOADK")
    } else if op == OP_LOADINT {
        Some("LOADINT")
    } else if op == OP_LOADNIL {
        Some("LOADNIL")
    } else if op == OP_LOADTRUE {
        Some("LOADTRUE")
    } else if op == OP_LOADFALSE {
        Some("LOADFALSE")
    } else if op == OP_LOADSELF {
        Some("LOADSELF")
    } else if op == OP_GETIVAR {
        Some("GETIVAR")
    } else if op == OP_SETIVAR {
        Some("SETIVAR")
    } else if op == OP_GETBOX {
        Some("GETBOX")
    } else if op == OP_SETBOX {
        Some("SETBOX")
    } else if op == OP_MKBOX {
        Some("MKBOX")
    } else if op == OP_SEND {
        Some("SEND")
    } else if op == OP_SENDSUPER {
        Some("SENDSUPER")
    } else if op == OP_RET {
        Some("RET")
    } else if op == OP_RETSELF {
        Some("RETSELF")
    } else if op == OP_NLR {
        Some("NLR")
    } else if op == OP_PRIM {
        Some("PRIM")
    } else if op == OP_MKCLOSURE {
        Some("MKCLOSURE")
    } else if op == OP_CAPTURE {
        Some("CAPTURE")
    } else if op == OP_JUMP {
        Some("JUMP")
    } else if op == OP_JUMPTRUE {
        Some("JUMPTRUE")
    } else if op == OP_JUMPFALSE {
        Some("JUMPFALSE")
    } else if op == OP_ADD {
        Some("ADD")
    } else if op == OP_SUB {
        Some("SUB")
    } else if op == OP_MUL {
        Some("MUL")
    } else if op == OP_DIV {
        Some("DIV")
    } else if op == OP_MOD {
        Some("MOD")
    } else if op == OP_LT {
        Some("LT")
    } else if op == OP_GT {
        Some("GT")
    } else if op == OP_LE {
        Some("LE")
    } else if op == OP_GE {
        Some("GE")
    } else if op == OP_EQNUM {
        Some("EQNUM")
    } else if op == OP_AT {
        Some("AT")
    } else if op == OP_ATPUT {
        Some("ATPUT")
    } else if op == OP_SIZE {
        Some("SIZE")
    } else if op == OP_CLASSOF {
        Some("CLASSOF")
    } else if op == OP_NOT {
        Some("NOT")
    } else if op == OP_IDEQ {
        Some("IDEQ")
    } else {
        None
    }
}

} // verus!
