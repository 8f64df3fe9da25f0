//! The host side of the display: the ARGB present buffer, the event queue,
//! and the clock. A window is one more presenter over the same buffer; what
//! it reports comes in as plain values.

use std::collections::VecDeque;
use vstd::prelude::*;

verus! {

/// One host event, encoded as five integers: `[type, a, b, c, d]`.
pub type HostEvent = [i64; 5];

pub const EV_NONE: i64 = 0;

pub const EV_MOUSE_MOVE: i64 = 1;

pub const EV_MOUSE_BUTTON: i64 = 2;

pub const EV_KEY_DOWN: i64 = 3;

pub const EV_KEY_UP: i64 = 4;

pub const EV_SCROLL: i64 = 5;

pub const EV_RESIZE: i64 = 6;

pub const EV_CLOSE: i64 = 7;

/// The clock behind the monotonic clock primitives.
#[derive(Clone, Copy, PartialEq, Eq, Structural, Debug)]
pub enum TimeSource {
    /// Wall time, as the host measures it.
    Real,
    /// Virtual time in nanoseconds; only the driver advances it.
    Virtual { now_ns: u64 },
}

/// What a key edits or navigates, for keys that type no character.
#[derive(Clone, Copy, PartialEq, Eq, Structural, Debug)]
pub enum KeyRole {
    Backspace,
    Enter,
    Left,
    Right,
    Up,
    Down,
    Other,
}

/// A key a window reports as pressed: the window system's code and its role.
#[derive(Clone, Copy, PartialEq, Eq, Structural, Debug)]
pub struct KeyPress {
    pub code: i64,
    pub role: KeyRole,
}

impl KeyRole {
    /// The control code that text panes understand: 8 and 10 for backspace
    /// and enter, 28 to 31 for the arrows, 0 for anything else.
    pub open spec fn code(self) -> i64 {
        match self {
            KeyRole::Backspace => 8,
            KeyRole::Enter => 10,
            KeyRole::Left => 28,
            KeyRole::Right => 29,
            KeyRole::Up => 30,
            KeyRole::Down => 31,
            KeyRole::Other => 0,
        }
    }

    pub fn control_code(self) -> (c: i64)
        ensures
            c == self.code(),
    {
        match self {
            KeyRole::Backspace => 8,
            KeyRole::Enter => 10,
            KeyRole::Left => 28,
            KeyRole::Right => 29,
            KeyRole::Up => 30,
            KeyRole::Down => 31,
            KeyRole::Other => 0,
        }
    }
}

/// Host-side display state. None of it survives a snapshot.
pub struct HostUi {
    /// What a window shows.
    pub buffer: Vec<u32>,
    pub buf_width: u32,
    pub buf_height: u32,
    /// Pending events, oldest first.
    pub events: VecDeque<HostEvent>,
    pub clock: TimeSource,
    /// Print diagnostics of the window.
    pub verbose: bool,
    // What the last window snapshot said, so that only changes make events.
    pub last_down: bool,
    pub last_down_right: bool,
    pub last_pos: Option<(i64, i64)>,
    pub last_keys: Vec<KeyPress>,
    pub close_sent: bool,
}

#[verifier::ext_equal]
pub struct HostView {
    pub buffer: Seq<u32>,
    pub width: u32,
    pub height: u32,
    pub events: Seq<Seq<i64>>,
    pub clock: TimeSource,
    pub verbose: bool,
    pub last_down: bool,
    pub last_down_right: bool,
    pub last_pos: Option<(i64, i64)>,
    pub last_keys: Seq<KeyPress>,
    pub close_sent: bool,
}

/// The integers of a list of events.
pub open spec fn event_views(s: Seq<HostEvent>) -> Seq<Seq<i64>> {
    Seq::new(s.len(), |i: int| s[i]@)
}

impl View for HostUi {
    type V = HostView;

    open spec fn view(&self) -> HostView {
        HostView {
            buffer: self.buffer@,
            width: self.buf_width,
            height: self.buf_height,
            events: event_views(self.events@),
            clock: self.clock,
            verbose: self.verbose,
            last_down: self.last_down,
            last_down_right: self.last_down_right,
            last_pos: self.last_pos,
            last_keys: self.last_keys@,
            close_sent: self.close_sent,
        }
    }
}

/// The pixel at `(x, y)` of a one-bit form whose rows are `stride` bytes,
/// most significant bit first, is set. Missing bytes count as clear.
pub open spec fn mono_bit(bits: Seq<u8>, stride: int, x: int, y: int) -> bool {
    let k = y * stride + x / 8;
    k < bits.len() && (bits[k] >> ((7 - x % 8) as u8)) & 1 == 1
}

/// Bytes per row of a one-bit form.
pub open spec fn mono_stride(width: int) -> int {
    (width + 7) / 8
}

impl HostView {
    /// No buffer, no events, the real clock.
    pub open spec fn initial() -> HostView {
        HostView {
            buffer: Seq::empty(),
            width: 0,
            height: 0,
            events: Seq::empty(),
            clock: TimeSource::Real,
            verbose: false,
            last_down: false,
            last_down_right: false,
            last_pos: None,
            last_keys: Seq::empty(),
            close_sent: false,
        }
    }

    pub open spec fn posted(self, ev: Seq<i64>) -> HostView {
        HostView { events: self.events.push(ev), ..self }
    }

    /// Monotonic nanoseconds: the virtual counter, or the host's reading.
    pub open spec fn mono(self, reading: u64) -> u64 {
        match self.clock {
            TimeSource::Virtual { now_ns } => now_ns,
            TimeSource::Real => reading,
        }
    }

    /// A one-bit form shown: set bits black, clear bits white.
    pub open spec fn presented(self, width: u32, height: u32, bits: Seq<u8>) -> HostView {
        HostView {
            buffer: mono_pixels(width as int, height as int, bits),
            width,
            height,
            ..self
        }
    }

    /// Move and button events of one window snapshot: each fires only when
    /// what it reports has changed.
    pub open spec fn pointed(self, pos: Option<(i64, i64)>, down: bool, right: bool) -> HostView {
        match pos {
            None => self,
            Some((x, y)) => {
                let v1 = if self.last_pos != Some((x, y)) {
                    HostView { last_pos: Some((x, y)), ..self }.posted(
                        seq![EV_MOUSE_MOVE, x, y, 0, 0],
                    )
                } else {
                    self
                };
                let v2 = if down != v1.last_down {
                    HostView { last_down: down, ..v1 }.posted(
                        seq![EV_MOUSE_BUTTON, x, y, 1, if down { 1 } else { 0 }],
                    )
                } else {
                    v1
                };
                if right != v2.last_down_right {
                    HostView { last_down_right: right, ..v2 }.posted(
                        seq![EV_MOUSE_BUTTON, x, y, 2, if right { 1 } else { 0 }],
                    )
                } else {
                    v2
                }
            },
        }
    }

    /// The state after one window snapshot.
    pub open spec fn ingested(
        self,
        open: bool,
        esc: bool,
        pos: Option<(i64, i64)>,
        down: bool,
        right: bool,
        keys: Seq<KeyPress>,
        chars: Seq<u32>,
    ) -> HostView {
        if !open || esc {
            if self.close_sent {
                self
            } else {
                HostView { close_sent: true, ..self }.posted(seq![EV_CLOSE, 0, 0, 0, 0])
            }
        } else {
            let v = self.pointed(pos, down, right);
            HostView {
                events: v.events + key_events(v.last_keys, keys, keys.len() as int) + char_events(
                    chars,
                    chars.len() as int,
                ),
                last_keys: keys,
                ..v
            }
        }
    }
}

/// The ARGB pixels of a one-bit form, row by row.
pub open spec fn mono_pixels(width: int, height: int, bits: Seq<u8>) -> Seq<u32> {
    Seq::new(
        (width * height) as nat,
        |k: int|
            if mono_bit(bits, mono_stride(width), k % width, k / width) {
                0xFF00_0000u32
            } else {
                0xFFFF_FFFFu32
            },
    )
}

/// The packed RGB bytes of a one-bit form, row by row.
pub open spec fn mono_rgb(width: int, height: int, bits: Seq<u8>) -> Seq<u8> {
    Seq::new(
        (3 * (width * height)) as nat,
        |k: int|
            if mono_bit(bits, mono_stride(width), (k / 3) % width, (k / 3) / width) {
                0u8
            } else {
                255u8
            },
    )
}

/// A key-down event for each of the first `n` keys that was not down before.
pub open spec fn key_events(last: Seq<KeyPress>, keys: Seq<KeyPress>, n: int) -> Seq<Seq<i64>>
    decreases n,
{
    if n <= 0 {
        Seq::empty()
    } else {
        let rest = key_events(last, keys, n - 1);
        let k = keys[n - 1];
        if last.contains(k) {
            rest
        } else {
            rest.push(seq![EV_KEY_DOWN, k.code, 0, k.role.code(), 0])
        }
    }
}

/// The character is text: no control character, and none of the private-use
/// codes that stand for function and arrow keys.
pub open spec fn is_text(ch: u32) -> bool {
    ch >= 32 && ch != 127 && !(0xF700 <= ch <= 0xF8FF)
}

/// A key-down event for each of the first `n` characters that is text.
pub open spec fn char_events(chars: Seq<u32>, n: int) -> Seq<Seq<i64>>
    decreases n,
{
    if n <= 0 {
        Seq::empty()
    } else {
        let rest = char_events(chars, n - 1);
        if is_text(chars[n - 1]) {
            rest.push(seq![EV_KEY_DOWN, 0, 0, chars[n - 1] as i64, 0])
        } else {
            rest
        }
    }
}

/// Keys that were all down before make no event.
proof fn lemma_held_keys(keys: Seq<KeyPress>, n: int)
    requires
        n <= keys.len(),
    ensures
        key_events(keys, keys, n) == Seq::<Seq<i64>>::empty(),
    decreases n,
{
    if n > 0 {
        lemma_held_keys(keys, n - 1);
        assert(keys.contains(keys[n - 1]));
    }
}

/// A window snapshot that says again what the one before it said adds no
/// event, whatever the snapshot and the state before it.
pub proof fn law_repeated_snapshot_quiesces(
    v: HostView,
    open: bool,
    esc: bool,
    pos: Option<(i64, i64)>,
    down: bool,
    right: bool,
    keys: Seq<KeyPress>,
    chars: Seq<u32>,
)
    ensures
        v.ingested(open, esc, pos, down, right, keys, chars).ingested(
            open,
            esc,
            pos,
            down,
            right,
            keys,
            Seq::empty(),
        ) == v.ingested(open, esc, pos, down, right, keys, chars),
{
    let v1 = v.ingested(open, esc, pos, down, right, keys, chars);
    lemma_held_keys(keys, keys.len() as int);
    if open && !esc {
        assert(v1.pointed(pos, down, right) == v1);
        assert(v1.events + Seq::<Seq<i64>>::empty() + Seq::<Seq<i64>>::empty() =~= v1.events);
    }
}

/// Once a close event was posted, no snapshot posts another.
pub proof fn law_close_fires_once(
    v: HostView,
    open: bool,
    esc: bool,
    pos: Option<(i64, i64)>,
    down: bool,
    right: bool,
    keys: Seq<KeyPress>,
    chars: Seq<u32>,
)
    requires
        v.close_sent,
        !open || esc,
    ensures
        v.ingested(open, esc, pos, down, right, keys, chars) == v,
{
}

impl Default for HostUi {
    fn default() -> (h: HostUi)
        ensures
            h@ == HostView::initial(),
    {
        let h = HostUi {
            buffer: Vec::new(),
            buf_width: 0,
            buf_height: 0,
            events: VecDeque::new(),
            clock: TimeSource::Real,
            verbose: false,
            last_down: false,
            last_down_right: false,
            last_pos: None,
            last_keys: Vec::new(),
            close_sent: false,
        };
        assert(h@.events =~= HostView::initial().events);
        h
    }
}

impl HostUi {
    pub fn new() -> (h: HostUi)
        ensures
            h@ == HostView::initial(),
    {
        HostUi::default()
    }

    /// Enqueue an event.
    pub fn push_event(&mut self, ev: HostEvent)
        ensures
            final(self)@ == old(self)@.posted(ev@),
    {
        self.events.push_back(ev);
        assert(self@.events =~= old(self)@.posted(ev@).events);
    }

    /// Take the oldest event; `None` when there is none.
    pub fn pop_event(&mut self) -> (r: Option<HostEvent>)
        ensures
            old(self)@.events.len() == 0 ==> r is None && final(self)@ == old(self)@,
            old(self)@.events.len() > 0 ==> r is Some && r->0@ == old(self)@.events[0],
            old(self)@.events.len() > 0 ==> final(self)@ == (HostView {
                events: old(self)@.events.skip(1),
                ..old(self)@
            }),
    {
        let r = self.events.pop_front();
        proof {
            if old(self)@.events.len() > 0 {
                assert(self@.events =~= old(self)@.events.skip(1));
            } else {
                assert(self@.events =~= old(self)@.events);
            }
        }
        r
    }

    /// Show a one-bit form.
    pub fn present_mono(&mut self, width: u32, height: u32, bits: &[u8])
        requires
            width * height <= u32::MAX,
        ensures
            final(self)@ == old(self)@.presented(width, height, bits@),
    {
        self.buffer = mono_to_argb(width, height, bits);
        self.buf_width = width;
        self.buf_height = height;
        assert(self@.events =~= old(self)@.events);
    }

    /// Expand a one-bit form to packed RGB.
    #[verifier::loop_isolation(false)]
    #[verifier::rlimit(60)]
    pub fn mono_to_rgb(width: u32, height: u32, bits: &[u8]) -> (rgb: Vec<u8>)
        requires
            3 * (width * height) <= u32::MAX,
        ensures
            rgb@ == mono_rgb(width as int, height as int, bits@),
    {
        let pixels = mono_to_argb(width, height, bits);
        let mut rgb: Vec<u8> = Vec::new();
        let mut k: usize = 0;
        while k < pixels.len()
            invariant
                k <= pixels@.len(),
                rgb@.len() == 3 * k,
                forall|j: int|
                    0 <= j < 3 * k ==> #[trigger] rgb@[j] == mono_rgb(
                        width as int,
                        height as int,
                        bits@,
                    )[j],
            decreases pixels@.len() - k,
        {
            let v: u8 = if pixels[k] == 0xFF00_0000 {
                0
            } else {
                255
            };
            rgb.push(v);
            rgb.push(v);
            rgb.push(v);
            k = k + 1;
        }
        assert(rgb@ =~= mono_rgb(width as int, height as int, bits@));
        rgb
    }

    /// Switch to the virtual clock, starting at zero.
    pub fn use_virtual_clock(&mut self)
        ensures
            final(self)@ == (HostView {
                clock: TimeSource::Virtual { now_ns: 0 },
                ..old(self)@
            }),
    {
        self.clock = TimeSource::Virtual { now_ns: 0 };
    }

    /// Advance virtual time; nothing happens under the real clock.
    pub fn advance_virtual_ns(&mut self, dt: u64)
        requires
            old(self)@.clock matches TimeSource::Virtual { now_ns } ==> now_ns + dt <= u64::MAX,
        ensures
            final(self)@ == (HostView {
                clock: match old(self)@.clock {
                    TimeSource::Virtual { now_ns } => TimeSource::Virtual {
                        now_ns: (now_ns + dt) as u64,
                    },
                    TimeSource::Real => TimeSource::Real,
                },
                ..old(self)@
            }),
    {
        self.clock = match self.clock {
            TimeSource::Virtual { now_ns } => TimeSource::Virtual { now_ns: now_ns + dt },
            TimeSource::Real => TimeSource::Real,
        };
    }

    /// Monotonic nanoseconds, given the host's own reading.
    pub fn mono_ns(&self, reading: u64) -> (ns: u64)
        ensures
            ns == self@.mono(reading),
    {
        match self.clock {
            TimeSource::Virtual { now_ns } => now_ns,
            TimeSource::Real => reading,
        }
    }

    fn point(&mut self, pos: Option<(i64, i64)>, down: bool, down_right: bool)
        ensures
            final(self)@ == old(self)@.pointed(pos, down, down_right),
    {
        if let Some((x, y)) = pos {
            let same = match self.last_pos {
                Some((a, b)) => a == x && b == y,
                None => false,
            };
            if !same {
                self.last_pos = Some((x, y));
                let e: HostEvent = [EV_MOUSE_MOVE, x, y, 0, 0];
                assert(e@ =~= seq![EV_MOUSE_MOVE, x, y, 0, 0]);
                self.push_event(e);
            }
            if down != self.last_down {
                self.last_down = down;
                let d: i64 = if down {
                    1
                } else {
                    0
                };
                let e: HostEvent = [EV_MOUSE_BUTTON, x, y, 1, d];
                assert(e@ =~= seq![EV_MOUSE_BUTTON, x, y, 1, d]);
                self.push_event(e);
            }
            if down_right != self.last_down_right {
                self.last_down_right = down_right;
                let d: i64 = if down_right {
                    1
                } else {
                    0
                };
                let e: HostEvent = [EV_MOUSE_BUTTON, x, y, 2, d];
                assert(e@ =~= seq![EV_MOUSE_BUTTON, x, y, 2, d]);
                self.push_event(e);
            }
        }
    }

    /// Turn one window snapshot into events. Only changes make events, so a
    /// loop that drains the queue between snapshots comes to rest.
    #[verifier::loop_isolation(false)]
    #[verifier::rlimit(60)]
    pub fn ingest_window_state(
        &mut self,
        open: bool,
        esc: bool,
        pos: Option<(i64, i64)>,
        down: bool,
        down_right: bool,
        keys: Vec<KeyPress>,
        chars: Vec<u32>,
    )
        ensures
            final(self)@ == old(self)@.ingested(
                open,
                esc,
                pos,
                down,
                down_right,
                keys@,
                chars@,
            ),
    {
        if !open || esc {
            if !self.close_sent {
                self.close_sent = true;
                let e: HostEvent = [EV_CLOSE, 0, 0, 0, 0];
                assert(e@ =~= seq![EV_CLOSE, 0, 0, 0, 0]);
                self.push_event(e);
            }
            return ;
        }
        self.point(pos, down, down_right);
        let ghost v = self@;
        let mut i: usize = 0;
        while i < keys.len()
            invariant
                i <= keys@.len(),
                self@ == (HostView {
                    events: v.events + key_events(v.last_keys, keys@, i as int),
                    ..v
                }),
            decreases keys@.len() - i,
        {
            let k = keys[i];
            if !has_key(&self.last_keys, k) {
                let e: HostEvent = [EV_KEY_DOWN, k.code, 0, k.role.control_code(), 0];
                assert(e@ =~= seq![EV_KEY_DOWN, k.code, 0, k.role.code(), 0]);
                self.push_event(e);
            }
            i = i + 1;
        }
        self.last_keys = keys;
        let ghost ev1 = self@.events;
        let mut j: usize = 0;
        while j < chars.len()
            invariant
                j <= chars@.len(),
                self@ == (HostView {
                    events: ev1 + char_events(chars@, j as int),
                    last_keys: keys@,
                    ..v
                }),
            decreases chars@.len() - j,
        {
            let ch: u32 = chars[j];
            if ch >= 32 && ch != 127 && !(0xF700 <= ch && ch <= 0xF8FF) {
                let e: HostEvent = [EV_KEY_DOWN, 0, 0, ch as i64, 0];
                assert(e@ =~= seq![EV_KEY_DOWN, 0, 0, ch as i64, 0]);
                self.push_event(e);
            }
            j = j + 1;
        }
    }
}

fn has_key(keys: &Vec<KeyPress>, k: KeyPress) -> (b: bool)
    ensures
        b == keys@.contains(k),
{
    let mut i: usize = 0;
    while i < keys.len()
        invariant
            i <= keys@.len(),
            forall|j: int| 0 <= j < i ==> keys@[j] != k,
        decreases keys@.len() - i,
    {
        if keys[i] == k {
            assert(keys@[i as int] == k);
            return true;
        }
        i = i + 1;
    }
    false
}

/// Expand a one-bit form to ARGB.
#[verifier::loop_isolation(false)]
#[verifier::rlimit(60)]
fn mono_to_argb(width: u32, height: u32, bits: &[u8]) -> (out: Vec<u32>)
    requires
        width * height <= u32::MAX,
    ensures
        out@ == mono_pixels(width as int, height as int, bits@),
{
    let stride: u64 = (width as u64 + 7) / 8;
    let mut out: Vec<u32> = Vec::new();
    let mut y: u64 = 0;
    let w: u64 = width as u64;
    let h: u64 = height as u64;
    let ghost all = mono_pixels(width as int, height as int, bits@);
    while y < h
        invariant
            y <= h,
            out@.len() == y * w,
            forall|j: int| 0 <= j < out@.len() ==> #[trigger] out@[j] == all[j],
        decreases h - y,
    {
        let mut x: u64 = 0;
        while x < w
            invariant
                x <= w,
                y < h,
                out@.len() == y * w + x,
                forall|j: int| 0 <= j < out@.len() ==> #[trigger] out@[j] == all[j],
            decreases w - x,
        {
            proof {
                vstd::arithmetic::div_mod::lemma_fundamental_div_mod_converse(
                    y * w + x,
                    w as int,
                    y as int,
                    x as int,
                );
                assert(y * w + x < h * w) by (nonlinear_arith)
                    requires
                        y < h,
                        x < w,
                ;
                assert(h * w == w * h) by (nonlinear_arith);
                assert(y * stride <= 0x1_0000_0000 * 0x2000_0000) by (nonlinear_arith)
                    requires
                        y <= 0x1_0000_0000,
                        stride <= 0x2000_0000,
                ;
                assert(w * y == y * w) by (nonlinear_arith);
            }
            let k: u64 = y * stride + x / 8;
            let byte: u8 = if k < bits.len() as u64 {
                bits[k as usize]
            } else {
                0
            };
            let sh: u8 = (7 - x % 8) as u8;
            assert((0u8 >> sh) & 1 == 0) by (bit_vector);
            let set = (byte >> sh) & 1 == 1;
            out.push(
                if set {
                    0xFF00_0000
                } else {
                    0xFFFF_FFFF
                },
            );
            x = x + 1;
        }
        proof {
            assert(y * w + w == (y + 1) * w) by (nonlinear_arith);
        }
        y = y + 1;
    }
    proof {
        assert(h * w == w * h) by (nonlinear_arith);
    }
    assert(out@ =~= all);
    out
}

} // verus!
