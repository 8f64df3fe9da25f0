//! Reports: every counter as a row, and the profiler's flat report.

use crate::counters::{opcode_name, CountersView};
use crate::heap::HeapView;
use crate::profile::ProfilerView;
use crate::text::{append_dec, text};
use crate::vm::{Vm, VmView};
use crate::treaty::SPECSEL_COUNT;
use vstd::prelude::*;
use vstd::string::*;

verus! {

// ---------------------------------------------------------------------------
// Counter rows
// ---------------------------------------------------------------------------
/// A counter's name and value.
pub struct Row {
    pub name: Seq<char>,
    pub value: u64,
}

/// What a list of rows says.
pub open spec fn row_views(rows: Seq<(String, u64)>) -> Seq<Row> {
    Seq::new(rows.len(), |i: int| Row { name: rows[i].0@, value: rows[i].1 })
}

/// A family of indexed counters.
#[derive(Clone, Copy, PartialEq, Eq, Structural, Debug)]
pub enum Family {
    Fallthrough,
    PrimCalls,
    PrimFails,
    Opcode,
    Gap,
}

impl Family {
    /// The name of the counter with index `i`. Gap bucket `i` holds the gaps
    /// below two to the `i`, bucket 0 the gap 0.
    pub open spec fn label(self, i: int) -> Seq<char> {
        match self {
            Family::Fallthrough => "specsend.fallthrough."@ + crate::boot::selector_text(i),
            Family::PrimCalls => "prim.calls."@ + crate::text::dec(i),
            Family::PrimFails => "prim.fails."@ + crate::text::dec(i),
            Family::Opcode => "opcode."@ + match crate::counters::mnemonic(i as u8) {
                Some(m) => m,
                None => "ILLEGAL"@,
            },
            Family::Gap => "poll.gap_le_"@ + crate::text::dec(
                if i == 0 {
                    0
                } else {
                    (1u64 << (i as u64)) as int
                },
            ),
        }
    }

    fn name(self, i: usize) -> (s: String)
        requires
            i <= 4096,
            self is Fallthrough ==> i < SPECSEL_COUNT,
            self is Opcode ==> i < 256,
            self is Gap ==> i < 64,
        ensures
            s@ == self.label(i as int),
    {
        match self {
            Family::Fallthrough => {
                let mut s = text("specsend.fallthrough.");
                s.append(crate::boot::selector_name(i));
                s
            },
            Family::PrimCalls => {
                let mut s = text("prim.calls.");
                append_dec(&mut s, i as u64);
                s
            },
            Family::PrimFails => {
                let mut s = text("prim.fails.");
                append_dec(&mut s, i as u64);
                s
            },
            Family::Opcode => {
                let mut s = text("opcode.");
                match opcode_name(i as u8) {
                    Some(m) => s.append(m),
                    None => s.append("ILLEGAL"),
                }
                s
            },
            Family::Gap => {
                let mut s = text("poll.gap_le_");
                append_dec(
                    &mut s,
                    if i == 0 {
                        0
                    } else {
                        1u64 << (i as u64)
                    },
                );
                s
            },
        }
    }
}

/// The rows with those of the first `n` counters of a family added, the
/// zero ones left out.
pub open spec fn with_family(rows: Seq<Row>, family: Family, t: Seq<u64>, n: int) -> Seq<Row>
    decreases n,
{
    if n <= 0 {
        rows
    } else {
        let before = with_family(rows, family, t, n - 1);
        if t[n - 1] != 0 {
            before.push(Row { name: family.label(n - 1), value: t[n - 1] })
        } else {
            before
        }
    }
}

fn add_row(rows: &mut Vec<(String, u64)>, name: &str, value: u64)
    ensures
        row_views(final(rows)@) == row_views(old(rows)@).push(Row { name: name@, value }),
{
    rows.push((text(name), value));
    assert(row_views(rows@) =~= row_views(old(rows)@).push(Row { name: name@, value }));
}

fn add_family(rows: &mut Vec<(String, u64)>, family: Family, t: &Vec<u64>)
    requires
        t@.len() <= 4096,
        family is Fallthrough ==> t@.len() <= SPECSEL_COUNT,
        family is Opcode ==> t@.len() <= 256,
        family is Gap ==> t@.len() <= 64,
    ensures
        row_views(final(rows)@) == with_family(
            row_views(old(rows)@),
            family,
            t@,
            t@.len() as int,
        ),
{
    let mut i: usize = 0;
    while i < t.len()
        invariant
            i <= t@.len() <= 4096,
            family is Fallthrough ==> t@.len() <= SPECSEL_COUNT,
            family is Opcode ==> t@.len() <= 256,
            family is Gap ==> t@.len() <= 64,
            row_views(rows@) == with_family(row_views(old(rows)@), family, t@, i as int),
        decreases t@.len() - i,
    {
        if t[i] != 0 {
            let ghost before = rows@;
            let name = family.name(i);
            rows.push((name, t[i]));
            assert(row_views(rows@) =~= row_views(before).push(
                Row { name: name@, value: t@[i as int] },
            ));
        }
        i = i + 1;
    }
}

impl VmView {
    /// Cache misses and slow paths of sends.
    #[verifier::opaque]
    pub open spec fn send_rows(self, rows: Seq<Row>) -> Seq<Row> {
        let c = self.ctr;
        rows.push(
            Row { name: "send.inline_cache_miss"@, value: c.inline_cache_miss },
        ).push(
            Row { name: "send.global_cache_miss"@, value: c.global_cache_miss },
        ).push(
            Row { name: "send.dict_walks"@, value: c.dict_walks },
        ).push(
            Row { name: "send.dict_classes_walked"@, value: c.dict_classes_walked },
        ).push(
            Row { name: "send.dnu"@, value: c.dnu },
        ).push(
            Row { name: "send.must_be_boolean"@, value: c.must_be_boolean },
        ).push(
            Row { name: "send.staged"@, value: c.sends_staged },
        )
    }

    /// Allocations.
    #[verifier::opaque]
    pub open spec fn alloc_rows(self, rows: Seq<Row>) -> Seq<Row> {
        let h = self.heap;
        rows.push(
            Row { name: "alloc.young.count"@, value: h.young_count },
        ).push(
            Row { name: "alloc.young.bytes"@, value: h.young_bytes },
        ).push(
            Row { name: "alloc.old.count"@, value: h.old_count },
        ).push(
            Row { name: "alloc.old.bytes"@, value: h.old_bytes },
        ).push(
            Row { name: "alloc.large.count"@, value: h.large_count },
        )
    }

    /// Collections, with the pause clocks.
    #[verifier::opaque]
    pub open spec fn gc_rows(self, rows: Seq<Row>, scavenge_ns: u64, compact_ns: u64) -> Seq<Row> {
        let c = self.ctr;
        rows.push(
            Row { name: "gc.scavenge.count"@, value: self.scavenges },
        ).push(
            Row { name: "gc.scavenge.ns"@, value: scavenge_ns },
        ).push(
            Row { name: "gc.compact.count"@, value: self.compacts },
        ).push(
            Row { name: "gc.compact.ns"@, value: compact_ns },
        ).push(
            Row { name: "gc.bytes_copied"@, value: c.gc_bytes_copied },
        ).push(
            Row { name: "gc.bytes_tenured"@, value: c.gc_bytes_tenured },
        ).push(
            Row { name: "gc.ssb_drained.total"@, value: c.gc_ssb_drained },
        ).push(
            Row { name: "gc.ssb_drained.max"@, value: c.gc_ssb_drained_max },
        ).push(
            Row { name: "gc.remembered_rebuilt"@, value: c.gc_remembered_rebuilt },
        )
    }

    /// Control events.
    #[verifier::opaque]
    pub open spec fn control_rows(self, rows: Seq<Row>) -> Seq<Row> {
        let c = self.ctr;
        rows.push(
            Row { name: "stack.growths"@, value: self.stack_grows },
        ).push(
            Row { name: "process.switches"@, value: c.process_switches },
        ).push(
            Row { name: "semaphore.blocks"@, value: c.semaphore_blocks },
        ).push(
            Row { name: "unwind.runs"@, value: c.unwind_runs },
        ).push(
            Row { name: "ensure.interceptions"@, value: c.ensure_interceptions },
        ).push(
            Row { name: "nlr.count"@, value: c.nlrs },
        ).push(
            Row { name: "cache.flushes"@, value: c.cache_flushes },
        ).push(
            Row { name: "method.installs"@, value: c.method_installs },
        )
    }

    /// Host interface work.
    #[verifier::opaque]
    pub open spec fn ui_rows(self, rows: Seq<Row>) -> Seq<Row> {
        let c = self.ctr;
        rows.push(
            Row { name: "ui.bitblt_calls"@, value: c.bitblt_calls },
        ).push(
            Row { name: "ui.pixels_blitted"@, value: c.pixels_blitted },
        ).push(
            Row { name: "ui.glyphs_drawn"@, value: c.glyphs_drawn },
        ).push(
            Row { name: "ui.events_processed"@, value: c.events_processed },
        ).push(
            Row { name: "ui.frames_presented"@, value: c.frames_presented },
        )
    }

    /// The gated tier's totals.
    #[verifier::opaque]
    pub open spec fn gate_rows(self, rows: Seq<Row>) -> Seq<Row> {
        let c = self.ctr;
        rows.push(
            Row { name: "gated.enabled"@, value: if c.gate {
                    1
                } else {
                    0
                } },
        ).push(
            Row { name: "insn.count"@, value: c.insns },
        ).push(
            Row { name: "send.count"@, value: c.sends },
        )
    }

    /// Every counter as a row; indexed counters that are zero are left out.
    pub open spec fn counter_table(self, scavenge_ns: u64, compact_ns: u64) -> Seq<Row> {
        let c = self.ctr;
        let r0 = self.send_rows(Seq::empty());
        let r1 = with_family(
            r0,
            Family::Fallthrough,
            c.spec_fallthrough,
            c.spec_fallthrough.len() as int,
        );
        let r2 = with_family(r1, Family::PrimCalls, c.prim_calls, c.prim_calls.len() as int);
        let r3 = with_family(r2, Family::PrimFails, c.prim_fails, c.prim_fails.len() as int);
        let r4 = self.gc_rows(self.alloc_rows(r3), scavenge_ns, compact_ns);
        let r5 = self.gate_rows(self.ui_rows(self.control_rows(r4)));
        let r6 = with_family(r5, Family::Opcode, c.opcode_hist, c.opcode_hist.len() as int);
        let r7 = r6.push(Row { name: "poll.gap_max"@, value: c.gap_max });
        with_family(r7, Family::Gap, c.gap_hist, c.gap_hist.len() as int)
    }

    /// The counters and the machine's own tallies set to zero; the switch
    /// stays as it is.
    pub open spec fn counters_reset(self) -> VmView {
        VmView {
            ctr: CountersView::zero(self.ctr.gate),
            heap: HeapView {
                young_count: 0,
                young_bytes: 0,
                old_count: 0,
                old_bytes: 0,
                large_count: 0,
                ..self.heap
            },
            scavenges: 0,
            compacts: 0,
            stack_grows: 0,
            ..self
        }
    }
}

// ---------------------------------------------------------------------------
// The table as text
// ---------------------------------------------------------------------------
/// The longest name among the first `n` rows, in bytes.
pub open spec fn name_width(rows: Seq<Row>, n: int) -> int
    decreases n,
{
    if n <= 0 {
        0
    } else {
        let w = name_width(rows, n - 1);
        let k = vstd::utf8::encode_utf8(rows[n - 1].name).len() as int;
        if k > w {
            k
        } else {
            w
        }
    }
}

/// `n` blanks.
pub open spec fn blanks(n: int) -> Seq<char> {
    Seq::new(
        if n > 0 {
            n as nat
        } else {
            0
        },
        |i: int| ' ',
    )
}

/// A row on a line: the name padded to a width, and the value.
pub open spec fn row_line(row: Row, width: int) -> Seq<char> {
    row.name + blanks(width - row.name.len()) + "  "@ + crate::text::dec(row.value as int)
        + "\n"@
}

/// The first `n` rows as lines.
pub open spec fn row_lines(rows: Seq<Row>, width: int, n: int) -> Seq<char>
    decreases n,
{
    if n <= 0 {
        Seq::empty()
    } else {
        row_lines(rows, width, n - 1) + row_line(rows[n - 1], width)
    }
}

/// The rows under their headline.
pub open spec fn stats_text(rows: Seq<Row>) -> Seq<char> {
    "--- smallishtalk VM counters ---\n"@ + row_lines(
        rows,
        name_width(rows, rows.len() as int),
        rows.len() as int,
    )
}

fn append_blanks(s: &mut String, n: usize)
    ensures
        final(s)@ == old(s)@ + blanks(n as int),
{
    let mut i: usize = 0;
    assert(old(s)@ + blanks(0) =~= old(s)@);
    while i < n
        invariant
            i <= n,
            s@ == old(s)@ + blanks(i as int),
        decreases n - i,
    {
        proof {
            reveal_strlit(" ");
        }
        s.append(" ");
        i = i + 1;
        assert(s@ =~= old(s)@ + blanks(i as int));
    }
}

fn widest(rows: &Vec<(String, u64)>) -> (w: usize)
    ensures
        w == name_width(row_views(rows@), rows@.len() as int),
{
    let mut w: usize = 0;
    let mut i: usize = 0;
    while i < rows.len()
        invariant
            i <= rows@.len(),
            w == name_width(row_views(rows@), i as int),
        decreases rows@.len() - i,
    {
        let k: usize = rows[i].0.as_str().as_bytes().len();
        if k > w {
            w = k;
        }
        i = i + 1;
    }
    w
}

fn append_line(s: &mut String, name: &str, value: u64, width: usize)
    ensures
        final(s)@ == old(s)@ + row_line(Row { name: name@, value }, width as int),
{
    let k: usize = name.unicode_len();
    s.append(name);
    append_blanks(
        s,
        if k < width {
            width - k
        } else {
            0
        },
    );
    s.append("  ");
    append_dec(s, value);
    s.append("\n");
    assert(blanks(width - k) =~= blanks(
        (if k < width {
            width - k
        } else {
            0
        }) as int,
    ));
    assert(s@ =~= old(s)@ + row_line(Row { name: name@, value }, width as int));
}

impl Vm {
    fn add_send_rows(&self, rows: &mut Vec<(String, u64)>)
        ensures
            row_views(final(rows)@) == self@.send_rows(row_views(old(rows)@)),
    {
        reveal(VmView::send_rows);
        let c = &self.counters;
        add_row(rows, "send.inline_cache_miss", c.inline_cache_miss);
        add_row(rows, "send.global_cache_miss", c.global_cache_miss);
        add_row(rows, "send.dict_walks", c.dict_walks);
        add_row(rows, "send.dict_classes_walked", c.dict_classes_walked);
        add_row(rows, "send.dnu", c.dnu);
        add_row(rows, "send.must_be_boolean", c.must_be_boolean);
        add_row(rows, "send.staged", c.sends_staged);
    }

    fn add_alloc_rows(&self, rows: &mut Vec<(String, u64)>)
        ensures
            row_views(final(rows)@) == self@.alloc_rows(row_views(old(rows)@)),
    {
        reveal(VmView::alloc_rows);
        let h = &self.heap;
        add_row(rows, "alloc.young.count", h.alloc_young_count);
        add_row(rows, "alloc.young.bytes", h.alloc_young_bytes);
        add_row(rows, "alloc.old.count", h.alloc_old_count);
        add_row(rows, "alloc.old.bytes", h.alloc_old_bytes);
        add_row(rows, "alloc.large.count", h.alloc_large_count);
    }

    fn add_gc_rows(&self, rows: &mut Vec<(String, u64)>)
        ensures
            row_views(final(rows)@) == self@.gc_rows(row_views(old(rows)@), self.counters.scavenge_ns, self.counters.compact_ns),
    {
        reveal(VmView::gc_rows);
        let c = &self.counters;
        add_row(rows, "gc.scavenge.count", self.scavenge_count);
        add_row(rows, "gc.scavenge.ns", c.scavenge_ns);
        add_row(rows, "gc.compact.count", self.compact_count);
        add_row(rows, "gc.compact.ns", c.compact_ns);
        add_row(rows, "gc.bytes_copied", c.gc_bytes_copied);
        add_row(rows, "gc.bytes_tenured", c.gc_bytes_tenured);
        add_row(rows, "gc.ssb_drained.total", c.gc_ssb_drained);
        add_row(rows, "gc.ssb_drained.max", c.gc_ssb_drained_max);
        add_row(rows, "gc.remembered_rebuilt", c.gc_remembered_rebuilt);
    }

    fn add_control_rows(&self, rows: &mut Vec<(String, u64)>)
        ensures
            row_views(final(rows)@) == self@.control_rows(row_views(old(rows)@)),
    {
        reveal(VmView::control_rows);
        let c = &self.counters;
        add_row(rows, "stack.growths", self.stack_grow_count);
        add_row(rows, "process.switches", c.process_switches);
        add_row(rows, "semaphore.blocks", c.semaphore_blocks);
        add_row(rows, "unwind.runs", c.unwind_runs);
        add_row(rows, "ensure.interceptions", c.ensure_interceptions);
        add_row(rows, "nlr.count", c.nlrs);
        add_row(rows, "cache.flushes", c.cache_flushes);
        add_row(rows, "method.installs", c.method_installs);
    }

    fn add_ui_rows(&self, rows: &mut Vec<(String, u64)>)
        ensures
            row_views(final(rows)@) == self@.ui_rows(row_views(old(rows)@)),
    {
        reveal(VmView::ui_rows);
        let c = &self.counters;
        add_row(rows, "ui.bitblt_calls", c.bitblt_calls);
        add_row(rows, "ui.pixels_blitted", c.pixels_blitted);
        add_row(rows, "ui.glyphs_drawn", c.glyphs_drawn);
        add_row(rows, "ui.events_processed", c.events_processed);
        add_row(rows, "ui.frames_presented", c.frames_presented);
    }

    fn add_gate_rows(&self, rows: &mut Vec<(String, u64)>)
        ensures
            row_views(final(rows)@) == self@.gate_rows(row_views(old(rows)@)),
    {
        reveal(VmView::gate_rows);
        let c = &self.counters;
        add_row(rows, "gated.enabled", if c.gate {
                1
            } else {
                0
            });
        add_row(rows, "insn.count", c.insns);
        add_row(rows, "send.count", c.sends);
    }

    /// Every counter as a row of name and value.
    pub fn counter_rows(&self) -> (rows: Vec<(String, u64)>)
        requires
            self.wf(),
        ensures
            row_views(rows@) == self@.counter_table(
                self.counters.scavenge_ns,
                self.counters.compact_ns,
            ),
    {
        let mut rows: Vec<(String, u64)> = Vec::new();
        assert(row_views(rows@) =~= Seq::empty());
        let c = &self.counters;
        self.add_send_rows(&mut rows);
        add_family(&mut rows, Family::Fallthrough, &c.spec_fallthrough);
        add_family(&mut rows, Family::PrimCalls, &c.prim_calls);
        add_family(&mut rows, Family::PrimFails, &c.prim_fails);
        self.add_alloc_rows(&mut rows);
        self.add_gc_rows(&mut rows);
        self.add_control_rows(&mut rows);
        self.add_ui_rows(&mut rows);
        self.add_gate_rows(&mut rows);
        add_family(&mut rows, Family::Opcode, &c.opcode_hist);
        add_row(&mut rows, "poll.gap_max", c.gap_max);
        add_family(&mut rows, Family::Gap, &c.gap_hist);
        rows
    }

    /// The counter rows as text, one per line.
    pub fn format_stats(&self) -> (s: String)
        requires
            self.wf(),
        ensures
            s@ == stats_text(
                self@.counter_table(self.counters.scavenge_ns, self.counters.compact_ns),
            ),
    {
        let rows = self.counter_rows();
        let w: usize = widest(&rows);
        let mut s = text("--- smallishtalk VM counters ---\n");
        let ghost head = s@;
        let ghost views = row_views(rows@);
        assert(head + row_lines(views, w as int, 0) =~= head);
        let mut i: usize = 0;
        while i < rows.len()
            invariant
                i <= rows@.len(),
                views == row_views(rows@),
                s@ == head + row_lines(views, w as int, i as int),
            decreases rows@.len() - i,
        {
            let ghost before = s@;
            append_line(&mut s, rows[i].0.as_str(), rows[i].1, w);
            assert(views[i as int] == Row { name: rows@[i as int].0@, value: rows@[i as int].1 });
            i = i + 1;
            assert(s@ =~= head + row_lines(views, w as int, i as int));
        }
        s
    }

    /// Set the counters to zero; the switch stays as it is.
    pub fn reset_counters(&mut self)
        requires
            old(self).wf(),
        ensures
            final(self).wf(),
            final(self)@ == old(self)@.counters_reset(),
            final(self).counters.scavenge_ns == 0,
            final(self).counters.compact_ns == 0,
    {
        self.counters.reset();
        self.heap.alloc_young_count = 0;
        self.heap.alloc_young_bytes = 0;
        self.heap.alloc_old_count = 0;
        self.heap.alloc_old_bytes = 0;
        self.heap.alloc_large_count = 0;
        self.scavenge_count = 0;
        self.compact_count = 0;
        self.stack_grow_count = 0;
    }
}

// ---------------------------------------------------------------------------
// The profiler's report
// ---------------------------------------------------------------------------
/// A line of the flat report.
pub struct Flat {
    pub name: Seq<char>,
    pub leaf: u64,
    pub total: u64,
}

pub open spec fn flat_views(rows: Seq<(String, u64, u64)>) -> Seq<Flat> {
    Seq::new(rows.len(), |i: int| flat_view(rows[i]))
}

pub open spec fn flat_view(r: (String, u64, u64)) -> Flat {
    Flat { name: r.0@, leaf: r.1, total: r.2 }
}

/// Byte sequences in lexicographic order.
pub open spec fn bytes_le(a: Seq<u8>, b: Seq<u8>) -> bool
    decreases a.len(),
{
    if a.len() == 0 {
        true
    } else if b.len() == 0 {
        false
    } else if a[0] != b[0] {
        a[0] < b[0]
    } else {
        bytes_le(a.skip(1), b.skip(1))
    }
}

/// The order of the report: more samples as the leaf first, then more in
/// all, then by name.
pub open spec fn flat_le(a: Flat, b: Flat) -> bool {
    if a.leaf != b.leaf {
        a.leaf > b.leaf
    } else if a.total != b.total {
        a.total > b.total
    } else {
        bytes_le(vstd::utf8::encode_utf8(a.name), vstd::utf8::encode_utf8(b.name))
    }
}

/// The names with samples among the first `n`.
pub open spec fn sampled_rows(p: ProfilerView, n: int) -> Seq<Flat>
    decreases n,
{
    if n <= 0 {
        Seq::empty()
    } else {
        let before = sampled_rows(p, n - 1);
        if p.flat_self[n - 1] != 0 || p.flat_total[n - 1] != 0 {
            before.push(
                Flat {
                    name: p.names[n - 1],
                    leaf: p.flat_self[n - 1],
                    total: p.flat_total[n - 1],
                },
            )
        } else {
            before
        }
    }
}

pub open spec fn in_report_order(rows: Seq<Flat>) -> bool {
    forall|i: int, j: int| 0 <= i <= j < rows.len() ==> flat_le(#[trigger] rows[i], #[trigger] rows[j])
}

/// The order of bytes is total.
pub proof fn lemma_bytes_total(a: Seq<u8>, b: Seq<u8>)
    ensures
        bytes_le(a, b) || bytes_le(b, a),
    decreases a.len(),
{
    if a.len() > 0 && b.len() > 0 && a[0] == b[0] {
        lemma_bytes_total(a.skip(1), b.skip(1));
    }
}

/// The order of bytes is transitive.
pub proof fn lemma_bytes_transitive(a: Seq<u8>, b: Seq<u8>, c: Seq<u8>)
    requires
        bytes_le(a, b),
        bytes_le(b, c),
    ensures
        bytes_le(a, c),
    decreases a.len(),
{
    if a.len() > 0 && b.len() > 0 && c.len() > 0 && a[0] == b[0] && b[0] == c[0] {
        lemma_bytes_transitive(a.skip(1), b.skip(1), c.skip(1));
    }
}

/// The order of the report is transitive.
pub proof fn lemma_flat_transitive(a: Flat, b: Flat, c: Flat)
    requires
        flat_le(a, b),
        flat_le(b, c),
    ensures
        flat_le(a, c),
{
    if a.leaf == b.leaf && b.leaf == c.leaf && a.total == b.total && b.total == c.total {
        lemma_bytes_transitive(
            vstd::utf8::encode_utf8(a.name),
            vstd::utf8::encode_utf8(b.name),
            vstd::utf8::encode_utf8(c.name),
        );
    }
}

fn bytes_in_order(a: &[u8], b: &[u8]) -> (r: bool)
    ensures
        r == bytes_le(a@, b@),
{
    let mut i: usize = 0;
    assert(a@.skip(0) =~= a@);
    assert(b@.skip(0) =~= b@);
    while i < a.len() && i < b.len()
        invariant
            i <= a@.len(),
            i <= b@.len(),
            bytes_le(a@, b@) == bytes_le(a@.skip(i as int), b@.skip(i as int)),
        decreases a@.len() - i,
    {
        if a[i] != b[i] {
            return a[i] < b[i];
        }
        assert(a@.skip(i as int).skip(1) =~= a@.skip(i + 1));
        assert(b@.skip(i as int).skip(1) =~= b@.skip(i + 1));
        i = i + 1;
    }
    i == a.len()
}

fn in_order(a: &(String, u64, u64), b: &(String, u64, u64)) -> (r: bool)
    ensures
        r == flat_le(flat_view(*a), flat_view(*b)),
{
    if a.1 != b.1 {
        a.1 > b.1
    } else if a.2 != b.2 {
        a.2 > b.2
    } else {
        bytes_in_order(a.0.as_str().as_bytes(), b.0.as_str().as_bytes())
    }
}

/// Insert a row where it belongs.
fn insert_row(rows: &mut Vec<(String, u64, u64)>, row: (String, u64, u64))
    requires
        in_report_order(flat_views(old(rows)@)),
    ensures
        in_report_order(flat_views(final(rows)@)),
        flat_views(final(rows)@).to_multiset() == flat_views(old(rows)@).to_multiset().insert(
            flat_view(row),
        ),
{
    let ghost v0 = flat_views(rows@);
    let ghost x = flat_view(row);
    let mut i: usize = 0;
    while i < rows.len() && in_order(&rows[i], &row)
        invariant
            i <= rows@.len(),
            rows@ == old(rows)@,
            v0 == flat_views(rows@),
            x == flat_view(row),
            forall|j: int| 0 <= j < i ==> flat_le(#[trigger] v0[j], x),
        decreases rows@.len() - i,
    {
        assert(v0[i as int] == flat_view(rows@[i as int]));
        i = i + 1;
    }
    rows.insert(i, row);
    let ghost v1 = flat_views(rows@);
    proof {
        assert(v1 =~= v0.insert(i as int, x));
        vstd::seq_lib::to_multiset_insert(v0, i as int, x);
        if i < v0.len() {
            let y = v0[i as int];
            lemma_bytes_total(
                vstd::utf8::encode_utf8(y.name),
                vstd::utf8::encode_utf8(x.name),
            );
            assert(flat_le(x, y));
        }
        lemma_bytes_total(vstd::utf8::encode_utf8(x.name), vstd::utf8::encode_utf8(x.name));
        assert forall|a: int, b: int| 0 <= a <= b < v1.len() implies flat_le(
            #[trigger] v1[a],
            #[trigger] v1[b],
        ) by {
            let k = i as int;
            let a0 = if a < k {
                a
            } else {
                a - 1
            };
            let b0 = if b < k {
                b
            } else {
                b - 1
            };
            if a != k && b != k {
                assert(flat_le(v0[a0], v0[b0]));
            } else if a == k && b > k {
                assert(flat_le(v0[k], v0[b0]));
                lemma_flat_transitive(x, v0[k], v0[b0]);
            }
        }
    }
}

impl Vm {
    /// The flat report: name, samples as the leaf, samples in all; the names
    /// with samples only.
    pub fn profiler_report_rows(&self) -> (rows: Vec<(String, u64, u64)>)
        requires
            self.wf(),
        ensures
            in_report_order(flat_views(rows@)),
            flat_views(rows@).to_multiset() == sampled_rows(
                self@.prof,
                self@.prof.names.len() as int,
            ).to_multiset(),
    {
        let p = &self.profiler;
        let ghost v = self@.prof;
        let mut rows: Vec<(String, u64, u64)> = Vec::new();
        assert(flat_views(rows@) =~= sampled_rows(v, 0));
        let mut i: usize = 0;
        while i < p.names.len()
            invariant
                i <= p.names@.len(),
                v == p@,
                v.wf(),
                in_report_order(flat_views(rows@)),
                flat_views(rows@).to_multiset() == sampled_rows(v, i as int).to_multiset(),
            decreases p.names@.len() - i,
        {
            if p.flat_self[i] != 0 || p.flat_total[i] != 0 {
                let row = (text(p.names[i].as_str()), p.flat_self[i], p.flat_total[i]);
                proof {
                    vstd::seq_lib::to_multiset_build(sampled_rows(v, i as int), flat_view(row));
                    assert(v.names[i as int] == p.names@[i as int]@);
                }
                insert_row(&mut rows, row);
            }
            i = i + 1;
        }
        rows
    }
}

} // verus!
