//! The machine's side of compiled code: the code cache, the handle table,
//! installation and validation of compiled methods, patching, tiering, and
//! where execution continues in compiled code.

use crate::counters::CountersView;
use crate::machine::{Machine, Regs};
use crate::prims::{FAIL_UNSUPPORTED_CONTEXT, FAIL_WRONG_TYPE};
use crate::text::{append_dec, text};
use crate::value::Value;
use crate::vm::{Vm, VmView};
use crate::treaty::{
    FRAME_FLAGS, JITCTL_FLUSH_ALL, JITCTL_GET_ENABLED, JITCTL_GET_PROFILING_LEVEL,
    JITCTL_GET_THRESHOLD, JITCTL_SET_ENABLED, JITCTL_SET_PROFILING_LEVEL, JITCTL_SET_THRESHOLD,
    JIT_BASE_DEFAULT, JIT_CACHE_BYTES_DEFAULT, JIT_PATCH_CLASS, JIT_PATCH_TARGET,
    JIT_QUEUE_CAPACITY, JIT_RETPOINT_NONE, JIT_TIER_THRESHOLD_DEFAULT, MAX_METHOD_INSTRUCTIONS,
    METHOD_VMSTATE, PRIM_PERFORM_WITH_ARGS, PRIM_SNAPSHOT, RETINFO_NO_SITE, SPECIAL_JIT_SEMAPHORE,
};
use vstd::prelude::*;

verus! {

/// A 4-byte field of installed code that may be rewritten.
#[derive(Clone, Copy, PartialEq, Eq, Structural, Debug)]
pub struct PatchSite {
    pub off: u32,
    pub kind: u8,
    pub site: u8,
}

/// Installed code of one method.
pub struct Handle {
    pub code_off: usize,
    pub code_len: usize,
    pub entry_off: u32,
    /// Bytecode pc to native offset, strictly sorted by pc.
    pub reentry: Vec<(u16, u32)>,
    /// Native offset of the continuation of each send site.
    pub retpts: Vec<u32>,
    pub patch_sites: Vec<PatchSite>,
    pub live: bool,
}

#[verifier::ext_equal]
pub struct HandleView {
    pub code_off: int,
    pub code_len: int,
    pub entry_off: u32,
    pub reentry: Seq<(u16, u32)>,
    pub retpts: Seq<u32>,
    pub patch_sites: Seq<PatchSite>,
    pub live: bool,
}

impl View for Handle {
    type V = HandleView;

    open spec fn view(&self) -> HandleView {
        HandleView {
            code_off: self.code_off as int,
            code_len: self.code_len as int,
            entry_off: self.entry_off,
            reentry: self.reentry@,
            retpts: self.retpts@,
            patch_sites: self.patch_sites@,
            live: self.live,
        }
    }
}

/// Installed code, at a fixed address, never moved; what is unlinked is
/// reclaimed only by flushing everything.
pub struct CodeCache {
    pub base: usize,
    pub reserve: usize,
    pub code: Vec<u8>,
}

/// Compiled-code state of a machine.
pub struct JitState {
    pub cache: CodeCache,
    pub handles: Vec<Handle>,
    /// The method of each handle.
    pub methods: Vec<Value>,
    /// Compilation requests, oldest first.
    pub queue: Vec<Value>,
    pub threshold: i64,
    pub enabled: bool,
    pub profiling_level: i64,
    /// A compiled activation is running below the current call.
    pub in_native: bool,
    /// Where installed methods start in the cache.
    pub glue_end: usize,
    pub call_interp_off: usize,
}

#[verifier::ext_equal]
pub struct JitView {
    pub base: int,
    pub reserve: int,
    pub code: Seq<u8>,
    pub handles: Seq<HandleView>,
    pub methods: Seq<Value>,
    pub queue: Seq<Value>,
    pub threshold: i64,
    pub enabled: bool,
    pub profiling_level: i64,
    pub in_native: bool,
    pub glue_end: int,
    pub call_interp_off: int,
}

/// The views of a table of handles.
pub open spec fn handle_views(t: Seq<Handle>) -> Seq<HandleView> {
    Seq::new(t.len(), |i: int| t[i]@)
}

impl View for JitState {
    type V = JitView;

    open spec fn view(&self) -> JitView {
        JitView {
            base: self.cache.base as int,
            reserve: self.cache.reserve as int,
            code: self.cache.code@,
            handles: handle_views(self.handles@),
            methods: self.methods@,
            queue: self.queue@,
            threshold: self.threshold,
            enabled: self.enabled,
            profiling_level: self.profiling_level,
            in_native: self.in_native,
            glue_end: self.glue_end as int,
            call_interp_off: self.call_interp_off as int,
        }
    }
}

/// Every handle's code and patch sites lie in the first `n` bytes.
#[verifier::opaque]
pub open spec fn handles_ok(handles: Seq<HandleView>, n: int) -> bool {
    forall|i: int| 0 <= i < handles.len() ==> (#[trigger] handles[i]).ok(n)
}

impl HandleView {
    pub open spec fn ok(self, n: int) -> bool {
        &&& 0 <= self.code_off
        &&& 0 <= self.code_len
        &&& self.code_off + self.code_len <= n
        &&& self.entry_off < self.code_len
        &&& forall|k: int|
            0 <= k < self.patch_sites.len() ==> (#[trigger] self.patch_sites[k]).off + 4
                <= self.code_len
        &&& forall|k: int|
            0 <= k < self.reentry.len() ==> (#[trigger] self.reentry[k]).1 < self.code_len
        &&& forall|k: int|
            0 <= k < self.retpts.len() ==> #[trigger] self.retpts[k] == JIT_RETPOINT_NONE
                || self.retpts[k] < self.code_len
    }
}

impl JitView {
    pub open spec fn wf(self) -> bool {
        &&& self.handles.len() == self.methods.len()
        &&& self.code.len() <= self.reserve
        &&& self.base + self.reserve <= i64::MAX
        &&& self.base + self.reserve <= usize::MAX
        &&& 0 <= self.glue_end <= self.code.len()
        &&& 0 <= self.call_interp_off < self.glue_end
        &&& handles_ok(self.handles, self.code.len() as int)
    }
}

// ---------------------------------------------------------------------------
// The code cache
// ---------------------------------------------------------------------------
/// The next multiple of sixteen.
pub open spec fn aligned(n: int) -> int {
    (n + 15) / 16 * 16
}

pub open spec fn zero_bytes(n: int) -> Seq<u8> {
    Seq::new(
        if n > 0 {
            n as nat
        } else {
            0
        },
        |i: int| 0u8,
    )
}

/// Leave the native stack: restore the stack pointer that entry saved, pop
/// what it pushed, and return.
pub open spec fn exit_glue() -> Seq<u8> {
    seq![
        0x49u8,
        0x8Bu8,
        0x66u8,
        40u8,
        0x48u8,
        0x83u8,
        0xC4u8,
        0x08u8,
        0x41u8,
        0x5Fu8,
        0x41u8,
        0x5Eu8,
        0x41u8,
        0x5Du8,
        0x41u8,
        0x5Cu8,
        0x5Du8,
        0x5Bu8,
        0xC3u8,
    ]
}

/// Hand the callee's frame to the interpreter: store bytecode pc 0 and exit.
pub open spec fn interp_glue() -> Seq<u8> {
    seq![
        0x49u8,
        0x8Bu8,
        0x46u8,
        8u8,
        0x48u8,
        0xC7u8,
        0x40u8,
        24u8,
        0x01u8,
        0x00u8,
        0x00u8,
        0x00u8,
        0xB8u8,
        1u8,
        0x00u8,
        0x00u8,
        0x00u8,
        0x41u8,
        0xFFu8,
        0x65u8,
        80u8,
    ]
}

/// The word in the four bytes at `i`, low byte first.
pub open spec fn read32(b: Seq<u8>, i: int) -> u32 {
    (b[i] as u32) | ((b[i + 1] as u32) << 8u32) | ((b[i + 2] as u32) << 16u32) | ((b[i
        + 3] as u32) << 24u32)
}

impl JitView {
    /// Code added to the cache at the next aligned offset; `None` when it
    /// is full.
    pub open spec fn cached(self, bytes: Seq<u8>) -> Option<(JitView, int)> {
        let n = self.code.len() as int;
        let off = aligned(n);
        if off + bytes.len() > self.reserve {
            None
        } else {
            Some((JitView { code: self.code + zero_bytes(off - n) + bytes, ..self }, off))
        }
    }

    /// A word of installed code rewritten.
    pub open spec fn patched(self, off: int, w: u32) -> JitView {
        if 0 <= off && off + 4 <= self.code.len() {
            JitView {
                code: self.code.update(off, w as u8).update(off + 1, (w >> 8u32) as u8).update(
                    off + 2,
                    (w >> 16u32) as u8,
                ).update(off + 3, (w >> 24u32) as u8),
                ..self
            }
        } else {
            self
        }
    }

    /// The state of a machine that compiles nothing yet, with the cache at
    /// an address: the two pieces of glue and no methods.
    pub open spec fn fresh(base: int) -> JitView {
        JitView {
            base,
            reserve: JIT_CACHE_BYTES_DEFAULT as int,
            code: exit_glue() + zero_bytes(13) + interp_glue(),
            handles: Seq::empty(),
            methods: Seq::empty(),
            queue: Seq::empty(),
            threshold: JIT_TIER_THRESHOLD_DEFAULT,
            enabled: true,
            profiling_level: 0,
            in_native: false,
            glue_end: 53,
            call_interp_off: 32,
        }
    }
}

impl CodeCache {
    /// An empty cache at an address.
    pub fn new(base: usize, reserve: usize) -> (c: CodeCache)
        ensures
            c.base == base,
            c.reserve == reserve,
            c.code@ == Seq::<u8>::empty(),
    {
        CodeCache { base, reserve, code: Vec::new() }
    }

    pub fn base_addr(&self) -> (a: usize)
        ensures
            a == self.base,
    {
        self.base
    }

    pub fn used(&self) -> (n: usize)
        ensures
            n == self.code@.len(),
    {
        self.code.len()
    }

    /// Copy code into the cache at the next aligned offset.
    pub fn install(&mut self, bytes: &[u8]) -> (r: Option<usize>)
        ensures
            final(self).base == old(self).base,
            final(self).reserve == old(self).reserve,
            ({
                let n = old(self).code@.len() as int;
                let off = aligned(n);
                if off + bytes@.len() > old(self).reserve {
                    r is None && final(self).code@ == old(self).code@
                } else {
                    r == Some(off as usize) && off as usize == off && final(self).code@ == old(
                        self,
                    ).code@ + zero_bytes(off - n) + bytes@
                }
            }),
    {
        let n: usize = self.code.len();
        let pad: usize = if n % 16 == 0 {
            0
        } else {
            16 - n % 16
        };
        let len: usize = bytes.len();
        if n > self.reserve || pad > self.reserve - n || len > self.reserve - n - pad {
            return None;
        }
        let mut i: usize = 0;
        assert(self.code@ =~= old(self).code@ + zero_bytes(0));
        while i < pad
            invariant
                i <= pad,
                self.base == old(self).base,
                self.reserve == old(self).reserve,
                self.code@ == old(self).code@ + zero_bytes(i as int),
            decreases pad - i,
        {
            self.code.push(0);
            i = i + 1;
            assert(self.code@ =~= old(self).code@ + zero_bytes(i as int));
        }
        let ghost before = self.code@;
        let mut k: usize = 0;
        assert(before =~= before + bytes@.take(0));
        while k < len
            invariant
                k <= len,
                len == bytes@.len(),
                self.base == old(self).base,
                self.reserve == old(self).reserve,
                self.code@ == before + bytes@.take(k as int),
            decreases len - k,
        {
            self.code.push(bytes[k]);
            k = k + 1;
            assert(self.code@ =~= before + bytes@.take(k as int));
        }
        assert(bytes@.take(len as int) =~= bytes@);
        Some(n + pad)
    }

    /// Rewrite a word of installed code.
    pub fn patch(&mut self, off: usize, w: u32)
        requires
            off + 4 <= old(self).code@.len(),
        ensures
            final(self).base == old(self).base,
            final(self).reserve == old(self).reserve,
            final(self).code@ == old(self).code@.update(off as int, w as u8).update(
                off + 1,
                (w >> 8u32) as u8,
            ).update(off + 2, (w >> 16u32) as u8).update(off + 3, (w >> 24u32) as u8),
    {
        let len: usize = self.code.len();
        self.code.set(off, w as u8);
        self.code.set(off + 1, (w >> 8u32) as u8);
        self.code.set(off + 2, (w >> 16u32) as u8);
        self.code.set(off + 3, (w >> 24u32) as u8);
    }

    /// Drop everything after the first `keep` bytes.
    pub fn reset_to(&mut self, keep: usize)
        ensures
            final(self).base == old(self).base,
            final(self).reserve == old(self).reserve,
            final(self).code@ == (if keep <= old(self).code@.len() {
                old(self).code@.take(keep as int)
            } else {
                old(self).code@
            }),
    {
        self.code.truncate(keep);
    }
}

// ---------------------------------------------------------------------------
// Maps
// ---------------------------------------------------------------------------
/// What the maps of a method say.
pub struct Maps {
    pub entry_off: u32,
    pub reentry: Seq<(u16, u32)>,
    pub retpts: Seq<u32>,
    pub patch_sites: Seq<PatchSite>,
}

pub open spec fn word_at(maps: Seq<u8>, i: int) -> u32 {
    read32(maps, 4 * i)
}

pub open spec fn bounds_text(off: u32, len: u32) -> Seq<char> {
    "native offset "@ + crate::text::dec(off as int) + " out of code bounds "@
        + crate::text::dec(len as int)
}

pub open spec fn length_text(len: int, want: int) -> Seq<char> {
    "maps length "@ + crate::text::dec(len) + " != expected "@ + crate::text::dec(want)
}

pub open spec fn kind_text(kind: u8) -> Seq<char> {
    "unknown patch kind "@ + crate::text::dec(kind as int)
}

/// The re-entry points from entry `i` of `n` on, added to a list: bytecode
/// pcs in increasing order, each with a native offset in the code.
pub open spec fn reentries(
    maps: Seq<u8>,
    len: u32,
    i: int,
    n: int,
    last: int,
    acc: Seq<(u16, u32)>,
) -> Result<Seq<(u16, u32)>, Seq<char>>
    decreases n - i,
{
    if i >= n {
        Ok(acc)
    } else {
        let pc = word_at(maps, 4 + 2 * i);
        let off = word_at(maps, 5 + 2 * i);
        if pc <= last {
            Err("re-entry map not strictly sorted by pc"@)
        } else if pc >= MAX_METHOD_INSTRUCTIONS {
            Err("re-entry pc out of range"@)
        } else if off >= len {
            Err(bounds_text(off, len))
        } else {
            reentries(maps, len, i + 1, n, pc as int, acc.push((pc as u16, off)))
        }
    }
}

/// The return points from entry `i` of `n` on, read from word `at`.
pub open spec fn return_points(
    maps: Seq<u8>,
    len: u32,
    at: int,
    i: int,
    n: int,
    acc: Seq<u32>,
) -> Result<Seq<u32>, Seq<char>>
    decreases n - i,
{
    if i >= n {
        Ok(acc)
    } else {
        let off = word_at(maps, at + i);
        if off != JIT_RETPOINT_NONE && off >= len {
            Err(bounds_text(off, len))
        } else {
            return_points(maps, len, at, i + 1, n, acc.push(off))
        }
    }
}

/// The patch sites from entry `i` of `n` on, read from word `at`.
pub open spec fn patches(
    maps: Seq<u8>,
    len: u32,
    at: int,
    i: int,
    n: int,
    acc: Seq<PatchSite>,
) -> Result<Seq<PatchSite>, Seq<char>>
    decreases n - i,
{
    if i >= n {
        Ok(acc)
    } else {
        let off = word_at(maps, at + 2 * i);
        let ks = word_at(maps, at + 2 * i + 1);
        let kind = (ks & 0xff) as u8;
        let site = ((ks >> 8u32) & 0xff) as u8;
        if kind != JIT_PATCH_CLASS && kind != JIT_PATCH_TARGET {
            Err(kind_text(kind))
        } else if off + 4 > len {
            Err("patch site out of code bounds"@)
        } else {
            patches(maps, len, at, i + 1, n, acc.push(PatchSite { off, kind, site }))
        }
    }
}

/// The maps of a method with `len` bytes of code, checked. Their words: the
/// entry offset; how many re-entry points, return points and patch sites
/// follow; and those.
#[verifier::opaque]
pub open spec fn parsed(maps: Seq<u8>, len: u32) -> Result<Maps, Seq<char>> {
    if maps.len() < 16 {
        Err("maps truncated"@)
    } else {
        let entry_off = word_at(maps, 0);
        let a = word_at(maps, 1) as int;
        let b = word_at(maps, 2) as int;
        let c = word_at(maps, 3) as int;
        let want = 4 * (4 + 2 * a + b + 2 * c);
        if maps.len() != want {
            Err(length_text(maps.len() as int, want))
        } else if entry_off >= len {
            Err(bounds_text(entry_off, len))
        } else {
            match reentries(maps, len, 0, a, -1, Seq::empty()) {
                Err(e) => Err(e),
                Ok(reentry) => match return_points(maps, len, 4 + 2 * a, 0, b, Seq::empty()) {
                    Err(e) => Err(e),
                    Ok(retpts) => match patches(
                        maps,
                        len,
                        4 + 2 * a + b,
                        0,
                        c,
                        Seq::empty(),
                    ) {
                        Err(e) => Err(e),
                        Ok(patch_sites) => Ok(
                            Maps { entry_off, reentry, retpts, patch_sites },
                        ),
                    },
                },
            }
        }
    }
}

/// The tables of a method's maps.
pub struct MapTables {
    pub entry_off: u32,
    pub reentry: Vec<(u16, u32)>,
    pub retpts: Vec<u32>,
    pub patch_sites: Vec<PatchSite>,
}

impl View for MapTables {
    type V = Maps;

    open spec fn view(&self) -> Maps {
        Maps {
            entry_off: self.entry_off,
            reentry: self.reentry@,
            retpts: self.retpts@,
            patch_sites: self.patch_sites@,
        }
    }
}

fn get_word(maps: &[u8], i: usize) -> (w: u32)
    requires
        4 * i + 4 <= maps@.len(),
    ensures
        w == word_at(maps@, i as int),
{
    let len: usize = maps.len();
    let k: usize = 4 * i;
    (maps[k] as u32) | ((maps[k + 1] as u32) << 8u32) | ((maps[k + 2] as u32) << 16u32) | ((maps[k
        + 3] as u32) << 24u32)
}

fn bounds_message(off: u32, len: u32) -> (s: String)
    ensures
        s@ == bounds_text(off, len),
{
    let mut s = text("native offset ");
    append_dec(&mut s, off as u64);
    s.append(" out of code bounds ");
    append_dec(&mut s, len as u64);
    s
}

/// What a step of reading the maps answers.
pub open spec fn read_as<T>(r: Result<Vec<T>, String>, planned: Result<Seq<T>, Seq<char>>) -> bool {
    match planned {
        Ok(s) => r is Ok && r->Ok_0@ == s,
        Err(e) => r is Err && r->Err_0@ == e,
    }
}

fn read_reentries(maps: &[u8], len: u32, n: usize) -> (r: Result<Vec<(u16, u32)>, String>)
    requires
        4 * (4 + 2 * n) <= maps@.len(),
    ensures
        read_as(r, reentries(maps@, len, 0, n as int, -1, Seq::empty())),
{
    let mut out: Vec<(u16, u32)> = Vec::new();
    let mut last: i64 = -1;
    let mut i: usize = 0;
    let total: usize = maps.len();
    assert(out@ =~= Seq::empty());
    while i < n
        invariant
            i <= n,
            total == maps@.len(),
            4 * (4 + 2 * n) <= maps@.len(),
            -1 <= last <= u32::MAX,
            reentries(maps@, len, 0, n as int, -1, Seq::empty()) == reentries(
                maps@,
                len,
                i as int,
                n as int,
                last as int,
                out@,
            ),
        decreases n - i,
    {
        let pc: u32 = get_word(maps, 4 + 2 * i);
        let off: u32 = get_word(maps, 5 + 2 * i);
        if pc as i64 <= last {
            return Err(text("re-entry map not strictly sorted by pc"));
        }
        if pc as usize >= MAX_METHOD_INSTRUCTIONS {
            return Err(text("re-entry pc out of range"));
        }
        if off >= len {
            return Err(bounds_message(off, len));
        }
        last = pc as i64;
        out.push((pc as u16, off));
        i = i + 1;
    }
    Ok(out)
}

fn read_return_points(maps: &[u8], len: u32, at: usize, n: usize) -> (r: Result<Vec<u32>, String>)
    requires
        4 * (at + n) <= maps@.len(),
    ensures
        read_as(r, return_points(maps@, len, at as int, 0, n as int, Seq::empty())),
{
    let mut out: Vec<u32> = Vec::new();
    let mut i: usize = 0;
    let total: usize = maps.len();
    assert(out@ =~= Seq::empty());
    while i < n
        invariant
            i <= n,
            total == maps@.len(),
            4 * (at + n) <= maps@.len(),
            return_points(maps@, len, at as int, 0, n as int, Seq::empty()) == return_points(
                maps@,
                len,
                at as int,
                i as int,
                n as int,
                out@,
            ),
        decreases n - i,
    {
        let off: u32 = get_word(maps, at + i);
        if off != JIT_RETPOINT_NONE && off >= len {
            return Err(bounds_message(off, len));
        }
        out.push(off);
        i = i + 1;
    }
    Ok(out)
}

fn read_patches(maps: &[u8], len: u32, at: usize, n: usize) -> (r: Result<Vec<PatchSite>, String>)
    requires
        4 * (at + 2 * n) <= maps@.len(),
    ensures
        read_as(r, patches(maps@, len, at as int, 0, n as int, Seq::empty())),
{
    let mut out: Vec<PatchSite> = Vec::new();
    let mut i: usize = 0;
    let total: usize = maps.len();
    assert(out@ =~= Seq::empty());
    while i < n
        invariant
            i <= n,
            total == maps@.len(),
            4 * (at + 2 * n) <= maps@.len(),
            patches(maps@, len, at as int, 0, n as int, Seq::empty()) == patches(
                maps@,
                len,
                at as int,
                i as int,
                n as int,
                out@,
            ),
        decreases n - i,
    {
        let off: u32 = get_word(maps, at + 2 * i);
        let ks: u32 = get_word(maps, at + 2 * i + 1);
        let kind: u8 = (ks & 0xff) as u8;
        let site: u8 = ((ks >> 8u32) & 0xff) as u8;
        if kind != JIT_PATCH_CLASS && kind != JIT_PATCH_TARGET {
            let mut s = text("unknown patch kind ");
            append_dec(&mut s, kind as u64);
            return Err(s);
        }
        if off as u64 + 4 > len as u64 {
            return Err(text("patch site out of code bounds"));
        }
        out.push(PatchSite { off, kind, site });
        i = i + 1;
    }
    Ok(out)
}

fn parse_maps(maps: &[u8], len: u32) -> (r: Result<MapTables, String>)
    ensures
        match parsed(maps@, len) {
            Ok(m) => r is Ok && r->Ok_0@ == m,
            Err(e) => r is Err && r->Err_0@ == e,
        },
{
    reveal(parsed);
    let total: usize = maps.len();
    if total < 16 {
        return Err(text("maps truncated"));
    }
    let entry_off: u32 = get_word(maps, 0);
    let a: u64 = get_word(maps, 1) as u64;
    let b: u64 = get_word(maps, 2) as u64;
    let c: u64 = get_word(maps, 3) as u64;
    let want: u64 = 4 * (4 + 2 * a + b + 2 * c);
    if total as u64 != want {
        let mut s = text("maps length ");
        append_dec(&mut s, total as u64);
        s.append(" != expected ");
        append_dec(&mut s, want);
        return Err(s);
    }
    if entry_off >= len {
        return Err(bounds_message(entry_off, len));
    }
    let reentry = read_reentries(maps, len, a as usize)?;
    let retpts = read_return_points(maps, len, 4 + 2 * a as usize, b as usize)?;
    let patch_sites = read_patches(maps, len, 4 + 2 * a as usize + b as usize, c as usize)?;
    Ok(MapTables { entry_off, reentry, retpts, patch_sites })
}

// ---------------------------------------------------------------------------
// Tiering state
// ---------------------------------------------------------------------------
/// The handle a tiering state names.
pub open spec fn handle_index(vs: i64) -> Option<int> {
    let h = (vs >> 19u32) & 0xff_ffff;
    if h == 0 {
        None
    } else {
        Some(h - 1)
    }
}

/// A tiering state with only the counter and the do-not-compile flag kept.
pub open spec fn state_kept(vs: i64) -> i64 {
    (vs & 0xffff) | (vs & 0x4_0000)
}

/// A tiering state that names the code of handle `h`.
pub open spec fn state_compiled(vs: i64, h: int) -> i64 {
    (vs & 0xffff) | (vs & 0x4_0000) | 0x2_0000 | (((h + 1) as i64) << 19u32)
}

/// A state that names a handle names that handle, is marked as compiled and
/// not as queued, and keeps the counter and the do-not-compile flag.
pub proof fn law_state_compiled(vs: i64, h: int)
    requires
        0 <= h < 0xff_ffff,
    ensures
        handle_index(state_compiled(vs, h)) == Some(h),
        state_compiled(vs, h) & 0x2_0000 != 0,
        state_compiled(vs, h) & 0x1_0000 == 0,
        state_compiled(vs, h) & 0xffff == vs & 0xffff,
        state_compiled(vs, h) & 0x4_0000 == vs & 0x4_0000,
{
    let k = (h + 1) as i64;
    assert({
        let r = (vs & 0xffff) | (vs & 0x4_0000) | 0x2_0000 | (k << 19u32);
        &&& (r >> 19u32) & 0xff_ffff == k
        &&& r & 0x2_0000 != 0
        &&& r & 0x1_0000 == 0
        &&& r & 0xffff == vs & 0xffff
        &&& r & 0x4_0000 == vs & 0x4_0000
    }) by (bit_vector)
        requires
            0 < k <= 0xff_ffff,
    ;
}

/// A state with the code dropped names no handle and keeps the counter and
/// the do-not-compile flag.
pub proof fn law_state_kept(vs: i64)
    ensures
        handle_index(state_kept(vs)) is None,
        state_kept(vs) & 0xffff == vs & 0xffff,
        state_kept(vs) & 0x4_0000 == vs & 0x4_0000,
{
    assert({
        let r = (vs & 0xffff) | (vs & 0x4_0000);
        &&& (r >> 19u32) & 0xff_ffff == 0
        &&& r & 0xffff == vs & 0xffff
        &&& r & 0x4_0000 == vs & 0x4_0000
    }) by (bit_vector);
}

/// A tiering state names handles from the first on.
pub(crate) proof fn lemma_handle_range(vs: i64)
    ensures
        0 <= (vs >> 19u32) & 0xff_ffff <= 0xff_ffff,
{
    assert(0 <= (vs >> 19u32) & 0xff_ffff <= 0xff_ffff) by (bit_vector);
}

fn index_of_handle(vs: i64) -> (r: Option<usize>)
    ensures
        match handle_index(vs) {
            None => r is None,
            Some(h) => r is Some && r->0 == h,
        },
{
    proof {
        lemma_handle_range(vs);
    }
    let h: i64 = (vs >> 19u32) & 0xff_ffff;
    if h == 0 {
        None
    } else {
        Some((h - 1) as usize)
    }
}

impl HandleView {
    /// The native offset of the re-entry point at a bytecode pc, from entry
    /// `i` on.
    pub open spec fn reentry_at(self, pc: u64, i: int) -> Option<u32>
        decreases self.reentry.len() - i,
    {
        if i < 0 || i >= self.reentry.len() {
            None
        } else if self.reentry[i].0 == pc {
            Some(self.reentry[i].1)
        } else {
            self.reentry_at(pc, i + 1)
        }
    }

    /// Where the method continues at a bytecode pc.
    pub open spec fn resume_off(self, pc: u64) -> Option<u32> {
        if pc == 0 {
            Some(self.entry_off)
        } else {
            self.reentry_at(pc, 0)
        }
    }
}

impl JitView {
    pub open spec fn with_handle(self, i: int, h: HandleView) -> JitView {
        JitView { handles: self.handles.update(i, h), ..self }
    }

    /// Code put in the cache and given the next handle; code that fits
    /// while no handle is left stays in the cache unused.
    #[verifier::opaque]
    pub open spec fn linked(self, method: Value, code: Seq<u8>, m: Maps) -> (
        JitView,
        Result<int, Seq<char>>,
    ) {
        match self.cached(code) {
            None => (self, Err("code cache full"@)),
            Some((j1, off)) => {
                let h = j1.handles.len() as int;
                if h + 1 >= 0x100_0000 {
                    (j1, Err("handle table full"@))
                } else {
                    (
                        JitView {
                            handles: j1.handles.push(
                                HandleView {
                                    code_off: off,
                                    code_len: code.len() as int,
                                    entry_off: m.entry_off,
                                    reentry: m.reentry,
                                    retpts: m.retpts,
                                    patch_sites: m.patch_sites,
                                    live: true,
                                },
                            ),
                            methods: j1.methods.push(method),
                            ..j1
                        },
                        Ok(h),
                    )
                }
            },
        }
    }

    /// The class immediates of a handle's patch sites from `k` on cleared.
    pub open spec fn handle_cleared(self, i: int, k: int) -> JitView
        decreases self.handles[i].patch_sites.len() - k,
    {
        let h = self.handles[i];
        if k < 0 || k >= h.patch_sites.len() {
            self
        } else if h.patch_sites[k].kind == JIT_PATCH_CLASS {
            self.patched(h.code_off + h.patch_sites[k].off, 0).handle_cleared(i, k + 1)
        } else {
            self.handle_cleared(i, k + 1)
        }
    }

    /// Every live compiled inline cache from handle `i` on sent back to the
    /// miss path: class immediate 0 matches no class.
    pub open spec fn sites_cleared(self, i: int) -> JitView
        decreases self.handles.len() - i,
    {
        if i < 0 || i >= self.handles.len() {
            self
        } else {
            proof {
                lemma_handle_cleared(self, i, 0);
            }
            let j = if self.handles[i].live {
                self.handle_cleared(i, 0)
            } else {
                self
            };
            j.sites_cleared(i + 1)
        }
    }

    /// The address of an offset in the cache.
    pub open spec fn addr(self, off: int) -> u64 {
        (self.base + off) as u64
    }

    /// The branch offset from a patch site to a target.
    pub open spec fn rel(self, off: int, target: u64) -> u32 {
        (target as i64 - (self.base + off + 4)) as i32 as u32
    }

    /// The patch sites of a handle for a send site from `k` on rewritten to
    /// a class and a target.
    pub open spec fn site_patched(self, i: int, site: u8, class: u32, target: u64, k: int) -> JitView
        decreases self.handles[i].patch_sites.len() - k,
    {
        let h = self.handles[i];
        if k < 0 || k >= h.patch_sites.len() {
            self
        } else {
            let ps = h.patch_sites[k];
            let off = h.code_off + ps.off;
            let j = if ps.site != site {
                self
            } else if ps.kind == JIT_PATCH_CLASS {
                self.patched(off, class)
            } else {
                self.patched(off, self.rel(off, target))
            };
            j.site_patched(i, site, class, target, k + 1)
        }
    }
}

/// Clearing sites changes nothing but code bytes.
pub proof fn lemma_handle_cleared(j: JitView, i: int, k: int)
    ensures
        j.handle_cleared(i, k) == (JitView { code: j.handle_cleared(i, k).code, ..j }),
        j.handle_cleared(i, k).code.len() == j.code.len(),
    decreases j.handles[i].patch_sites.len() - k,
{
    let h = j.handles[i];
    if 0 <= k < h.patch_sites.len() {
        if h.patch_sites[k].kind == JIT_PATCH_CLASS {
            lemma_handle_cleared(j.patched(h.code_off + h.patch_sites[k].off, 0), i, k + 1);
        } else {
            lemma_handle_cleared(j, i, k + 1);
        }
    }
}

impl VmView {
    /// The semaphore that compilation requests signal; nil where there is
    /// none.
    pub open spec fn jit_semaphore(self) -> Value {
        if self.specials.len() > SPECIAL_JIT_SEMAPHORE {
            self.specials[SPECIAL_JIT_SEMAPHORE as int]
        } else {
            self.nil()
        }
    }

    /// The machine with that semaphore there once, or made where old space
    /// has room.
    pub open spec fn with_jit_semaphore(self) -> VmView {
        if self.specials.len() > SPECIAL_JIT_SEMAPHORE {
            self
        } else {
            match self.heap.semaphore_made(self.nil()) {
                None => self,
                Some((heap, s)) => VmView { heap, specials: self.specials.push(s), ..self },
            }
        }
    }

    /// The state there once, or made, with the cache at an address.
    pub open spec fn jit_ready(self, base: int) -> VmView {
        match self.jit {
            Some(_) => self,
            None => VmView { jit: Some(JitView::fresh(base)), ..self.with_jit_semaphore() },
        }
    }

    /// The tiering state of a method.
    pub open spec fn vmstate(self, method: Value) -> i64 {
        let f = self.field(method, METHOD_VMSTATE as int);
        if f.tagged_int() {
            f.int_value()
        } else {
            0
        }
    }

    pub open spec fn with_vmstate(self, method: Value, vs: i64) -> VmView {
        self.with_field(method, METHOD_VMSTATE as int, crate::value::tag(vs))
    }

    pub open spec fn with_jit(self, j: JitView) -> VmView {
        VmView { jit: Some(j), ..self }
    }

    /// The handle of a method with compiled code.
    pub open spec fn live_handle(self, method: Value) -> Option<int> {
        match self.jit {
            None => None,
            Some(j) => match handle_index(self.vmstate(method)) {
                Some(i) => if i < j.handles.len() && j.handles[i].live {
                    Some(i)
                } else {
                    None
                },
                None => None,
            },
        }
    }

    // --- Invocation counting ---
    /// A method over its threshold put in the queue and the request
    /// signaled, unless the queue is full: then it comes again with its next
    /// activation.
    #[verifier::opaque]
    pub open spec fn tripped(self, method: Value) -> VmView {
        let v = VmView {
            ctr: CountersView { jit_trips: self.ctr.jit_trips.wrapping_add(1), ..self.ctr },
            ..self
        };
        let j = v.jit->0;
        if j.queue.len() >= JIT_QUEUE_CAPACITY {
            VmView {
                ctr: CountersView {
                    jit_queue_drops: v.ctr.jit_queue_drops.wrapping_add(1),
                    ..v.ctr
                },
                ..v
            }
        } else {
            let v1 = v.with_jit(JitView { queue: j.queue.push(method), ..j });
            let v2 = v1.with_vmstate(method, v1.vmstate(method) | 0x1_0000);
            let sem = v2.jit_semaphore();
            if sem.tagged_ptr() && sem != v2.nil() {
                v2.signaled(sem)
            } else {
                v2
            }
        }
    }

    /// An activation counted, up to the counter's limit. A method that
    /// reaches the threshold and is not queued, compiled or marked as not to
    /// be compiled is put in the queue.
    #[verifier::opaque]
    pub open spec fn invocation_counted(self, method: Value) -> VmView {
        match self.jit {
            None => self,
            Some(j) => {
                let vs = self.vmstate(method);
                if !j.enabled || vs & 0xffff >= 0xffff {
                    self
                } else {
                    let v = self.with_vmstate(method, (vs + 1) as i64);
                    if (vs & 0xffff) + 1 >= j.threshold && ((vs + 1) as i64) & 0x7_0000 == 0 {
                        v.tripped(method)
                    } else {
                        v
                    }
                }
            },
        }
    }

    // --- Code installed and dropped ---
    /// A method's code unlinked: it is not entered again, and stays in
    /// memory until everything is flushed.
    #[verifier::opaque]
    pub open spec fn unlinked(self, method: Value) -> VmView {
        let f = self.field(method, METHOD_VMSTATE as int);
        match self.jit {
            None => self,
            Some(j) => if !f.tagged_int() {
                self
            } else {
                match handle_index(f.int_value()) {
                    Some(i) if i < j.handles.len() => VmView {
                        ctr: CountersView {
                            jit_unlinks: self.ctr.jit_unlinks.wrapping_add(1),
                            ..self.ctr
                        },
                        ..self.with_jit(
                            j.with_handle(i, HandleView { live: false, ..j.handles[i] }),
                        )
                    }.with_vmstate(method, state_kept(f.int_value())),
                    _ => self,
                }
            },
        }
    }

    /// Checked code of a method put in the cache, with a handle of its own.
    #[verifier::opaque]
    pub open spec fn code_linked(self, method: Value, code: Seq<u8>, m: Maps) -> (
        VmView,
        Result<int, Seq<char>>,
    ) {
        let (j, planned) = self.jit->0.linked(method, code, m);
        let v = self.with_jit(j);
        match planned {
            Err(e) => (v, Err(e)),
            Ok(h) => {
                let v1 = v.with_vmstate(method, state_compiled(v.vmstate(method), h));
                (
                    VmView {
                        ctr: CountersView {
                            jit_installs: v1.ctr.jit_installs.wrapping_add(1),
                            ..v1.ctr
                        },
                        ..v1
                    },
                    Ok(h),
                )
            },
        }
    }

    /// Code installed for a method: its maps checked, older code unlinked,
    /// and the new code put in the cache.
    pub open spec fn code_installed(self, method: Value, code: Seq<u8>, maps: Seq<u8>) -> (
        VmView,
        Result<int, Seq<char>>,
    ) {
        let v = self.jit_ready(JIT_BASE_DEFAULT as int);
        match parsed(maps, code.len() as u32) {
            Err(e) => (v, Err(e)),
            Ok(m) => v.unlinked(method).code_linked(method, code, m),
        }
    }

    /// The tiering states of a list of methods from `i` on cleared but for
    /// counter and do-not-compile flag.
    pub open spec fn states_cleared(self, list: Seq<Value>, i: int) -> VmView
        decreases list.len() - i,
    {
        if i < 0 || i >= list.len() {
            self
        } else {
            let f = self.field(list[i], METHOD_VMSTATE as int);
            let v = if f.tagged_int() {
                self.with_vmstate(list[i], state_kept(f.int_value()))
            } else {
                self
            };
            v.states_cleared(list, i + 1)
        }
    }

    /// All code dropped, and the queue with it; `None` while compiled code
    /// is running.
    #[verifier::opaque]
    pub open spec fn code_flushed(self) -> Option<VmView> {
        match self.jit {
            None => Some(self),
            Some(j) => if j.in_native {
                None
            } else {
                Some(
                    self.with_jit(
                        JitView {
                            code: j.code.take(j.glue_end),
                            handles: Seq::empty(),
                            methods: Seq::empty(),
                            queue: Seq::empty(),
                            ..j
                        },
                    ).states_cleared(j.methods, 0),
                )
            },
        }
    }

    /// The setting asked for, or a failure code.
    #[verifier::opaque]
    pub open spec fn controlled(self, op: i64, arg: i64) -> (VmView, Result<i64, i64>) {
        let v = self.jit_ready(JIT_BASE_DEFAULT as int);
        let j = v.jit->0;
        if op == JITCTL_GET_THRESHOLD {
            (v, Ok(j.threshold))
        } else if op == JITCTL_SET_THRESHOLD {
            let threshold = if arg < 1 {
                1
            } else {
                arg
            };
            (v.with_jit(JitView { threshold, ..j }), Ok(threshold))
        } else if op == JITCTL_GET_ENABLED {
            (
                v,
                Ok(
                    if j.enabled {
                        1
                    } else {
                        0
                    },
                ),
            )
        } else if op == JITCTL_SET_ENABLED {
            (
                v.with_jit(JitView { enabled: arg != 0, ..j }),
                Ok(
                    if arg != 0 {
                        1
                    } else {
                        0
                    },
                ),
            )
        } else if op == JITCTL_FLUSH_ALL {
            match v.code_flushed() {
                None => (v, Err(FAIL_UNSUPPORTED_CONTEXT)),
                Some(v1) => (v1, Ok(0)),
            }
        } else if op == JITCTL_GET_PROFILING_LEVEL {
            (v, Ok(j.profiling_level))
        } else if op == JITCTL_SET_PROFILING_LEVEL {
            match v.code_flushed() {
                None => (v, Err(FAIL_UNSUPPORTED_CONTEXT)),
                Some(v1) => {
                    let level = if arg < 0 {
                        0
                    } else if arg > 2 {
                        2
                    } else {
                        arg
                    };
                    (v1.with_jit(JitView { profiling_level: level, ..v1.jit->0 }), Ok(level))
                },
            }
        } else {
            (v, Err(FAIL_WRONG_TYPE))
        }
    }

    // --- Call sites ---
    /// Where a compiled call to a method goes: its code, or the glue that
    /// hands the frame to the interpreter.
    pub open spec fn callee_entry(self, callee: Value) -> u64 {
        let j = self.jit->0;
        match self.live_handle(callee) {
            Some(i) => j.addr(j.handles[i].code_off + j.handles[i].entry_off),
            None => j.addr(j.call_interp_off),
        }
    }

    /// A caller's compiled send site made to call a method for a class. Two
    /// primitives cannot run in a frame of their own, and stay on the miss
    /// path.
    #[verifier::opaque]
    pub open spec fn send_site_patched(
        self,
        caller: Value,
        site: u8,
        class: u32,
        callee: Value,
    ) -> VmView {
        let prim = crate::vm::mh_primitive(self.method_bits(callee));
        match self.live_handle(caller) {
            None => self,
            Some(i) => if prim == Some(PRIM_PERFORM_WITH_ARGS) || prim == Some(PRIM_SNAPSHOT) {
                self
            } else {
                let target = self.callee_entry(callee);
                VmView {
                    ctr: if self.live_handle(callee) is Some {
                        CountersView {
                            jit_sites_direct: self.ctr.jit_sites_direct.wrapping_add(1),
                            ..self.ctr
                        }
                    } else {
                        CountersView {
                            jit_sites_interp: self.ctr.jit_sites_interp.wrapping_add(1),
                            ..self.ctr
                        }
                    },
                    ..self.with_jit(self.jit->0.site_patched(i, site, class, target, 0))
                }
            },
        }
    }

    // --- Where compiled code continues ---
    /// The address at which a return into a method's frame at a send site
    /// continues in its compiled code.
    pub open spec fn return_addr(self, method: Value, site: u8) -> Option<u64> {
        let j = self.jit->0;
        match self.live_handle(method) {
            None => None,
            Some(i) => {
                let h = j.handles[i];
                if j.in_native || site == RETINFO_NO_SITE || site >= h.retpts.len()
                    || h.retpts[site as int] == JIT_RETPOINT_NONE {
                    None
                } else {
                    Some(j.addr(h.code_off + h.retpts[site as int]))
                }
            },
        }
    }
}

impl Machine {
    /// A frame that runs an ensure block: its return resumes the pending
    /// unwind, which only the interpreter does.
    pub open spec fn unwind_frame(self) -> bool {
        let f = self.flags_at(self.regs.frame as int);
        f.tagged_int() && f.int_value() & 8 != 0
    }

    /// The address at which the current frame continues in compiled code.
    pub open spec fn resume_addr(self) -> Option<u64> {
        let j = self.vm.jit->0;
        match self.vm.live_handle(self.regs.method) {
            None => None,
            Some(i) => if self.unwind_frame() {
                None
            } else {
                match j.handles[i].resume_off(self.regs.pc) {
                    None => None,
                    Some(off) => Some(j.addr(j.handles[i].code_off + off)),
                }
            },
        }
    }

    /// As [`Machine::resume_addr`]; none while compiled code is running.
    pub open spec fn entry_addr(self) -> Option<u64> {
        if self.vm.jit is Some && self.vm.jit->0.in_native {
            None
        } else {
            self.resume_addr()
        }
    }
}

// ---------------------------------------------------------------------------
// Operations
// ---------------------------------------------------------------------------
fn exit_glue_bytes() -> (v: Vec<u8>)
    ensures
        v@ == exit_glue(),
{
    let v: Vec<u8> = vec![
        0x49u8, 0x8Bu8, 0x66u8, 40u8, 0x48u8, 0x83u8, 0xC4u8, 0x08u8, 0x41u8, 0x5Fu8, 0x41u8,
        0x5Eu8, 0x41u8, 0x5Du8, 0x41u8, 0x5Cu8, 0x5Du8, 0x5Bu8, 0xC3u8,
    ];
    assert(v@ =~= exit_glue());
    v
}

fn interp_glue_bytes() -> (v: Vec<u8>)
    ensures
        v@ == interp_glue(),
{
    let v: Vec<u8> = vec![
        0x49u8, 0x8Bu8, 0x46u8, 8u8, 0x48u8, 0xC7u8, 0x40u8, 24u8, 0x01u8, 0x00u8, 0x00u8,
        0x00u8, 0xB8u8, 1u8, 0x00u8, 0x00u8, 0x00u8, 0x41u8, 0xFFu8, 0x65u8, 80u8,
    ];
    assert(v@ =~= interp_glue());
    v
}

/// A fresh cache keeps its handles in bounds.
proof fn lemma_no_handles(n: int)
    ensures
        handles_ok(Seq::empty(), n),
{
    reveal(handles_ok);
}

impl JitState {
    /// The state of a machine that compiles nothing yet.
    fn fresh(base: usize) -> (j: JitState)
        requires
            base + JIT_CACHE_BYTES_DEFAULT <= usize::MAX,
            base + JIT_CACHE_BYTES_DEFAULT <= i64::MAX,
        ensures
            j@ == JitView::fresh(base as int),
            j@.wf(),
    {
        let mut cache = CodeCache::new(base, JIT_CACHE_BYTES_DEFAULT);
        let exit = exit_glue_bytes();
        let interp = interp_glue_bytes();
        cache.install(exit.as_slice());
        assert(cache.code@ =~= exit_glue());
        cache.install(interp.as_slice());
        assert(cache.code@ == exit_glue() + zero_bytes(13) + interp_glue());
        let j = JitState {
            cache,
            handles: Vec::new(),
            methods: Vec::new(),
            queue: Vec::new(),
            threshold: JIT_TIER_THRESHOLD_DEFAULT,
            enabled: true,
            profiling_level: 0,
            in_native: false,
            glue_end: 53,
            call_interp_off: 32,
        };
        proof {
            assert(j@.handles =~= Seq::empty());
            lemma_no_handles(53);
        }
        j
    }

    fn patch_word(&mut self, off: usize, w: u32)
        requires
            old(self)@.wf(),
            off + 4 <= old(self)@.code.len(),
        ensures
            final(self)@.wf(),
            final(self)@ == old(self)@.patched(off as int, w),
    {
        self.cache.patch(off, w);
    }

    fn clear_handle(&mut self, i: usize)
        requires
            old(self)@.wf(),
            i < old(self)@.handles.len(),
        ensures
            final(self)@.wf(),
            final(self)@ == old(self)@.handle_cleared(i as int, 0),
    {
        let ghost j0 = self@;
        let mut k: usize = 0;
        while k < self.handles[i].patch_sites.len()
            invariant
                self@.wf(),
                i < self@.handles.len(),
                self@.handles == j0.handles,
                k <= j0.handles[i as int].patch_sites.len(),
                j0.handle_cleared(i as int, 0) == self@.handle_cleared(i as int, k as int),
            decreases j0.handles[i as int].patch_sites.len() - k,
        {
            let ps = self.handles[i].patch_sites[k];
            if ps.kind == JIT_PATCH_CLASS {
                proof {
                    reveal(handles_ok);
                    let h = self@.handles[i as int];
                    assert(h.ok(self@.code.len() as int));
                    assert(h.patch_sites[k as int].off + 4 <= h.code_len);
                }
                let off: usize = self.handles[i].code_off + ps.off as usize;
                self.patch_word(off, 0);
            }
            k = k + 1;
        }
    }

    fn clear_sites(&mut self)
        requires
            old(self)@.wf(),
        ensures
            final(self)@.wf(),
            final(self)@ == old(self)@.sites_cleared(0),
    {
        let ghost j0 = self@;
        let mut i: usize = 0;
        while i < self.handles.len()
            invariant
                self@.wf(),
                self@.handles == j0.handles,
                i <= j0.handles.len(),
                j0.sites_cleared(0) == self@.sites_cleared(i as int),
            decreases j0.handles.len() - i,
        {
            proof {
                lemma_handle_cleared(self@, i as int, 0);
            }
            if self.handles[i].live {
                self.clear_handle(i);
            }
            i = i + 1;
        }
    }

    fn rel(&self, off: usize, target: u64) -> (w: u32)
        requires
            self@.wf(),
            off + 4 <= self@.code.len(),
            target <= i64::MAX,
        ensures
            w == self@.rel(off as int, target),
    {
        let site: i64 = self.cache.base as i64 + off as i64 + 4;
        (target as i64 - site) as i32 as u32
    }

    fn patch_site(&mut self, i: usize, site: u8, class: u32, target: u64)
        requires
            old(self)@.wf(),
            i < old(self)@.handles.len(),
            target <= i64::MAX,
        ensures
            final(self)@.wf(),
            final(self)@ == old(self)@.site_patched(i as int, site, class, target, 0),
    {
        let ghost j0 = self@;
        let mut k: usize = 0;
        while k < self.handles[i].patch_sites.len()
            invariant
                self@.wf(),
                i < self@.handles.len(),
                target <= i64::MAX,
                self@.handles == j0.handles,
                k <= j0.handles[i as int].patch_sites.len(),
                j0.site_patched(i as int, site, class, target, 0) == self@.site_patched(
                    i as int,
                    site,
                    class,
                    target,
                    k as int,
                ),
            decreases j0.handles[i as int].patch_sites.len() - k,
        {
            let ps = self.handles[i].patch_sites[k];
            if ps.site == site {
                proof {
                    reveal(handles_ok);
                    let h = self@.handles[i as int];
                    assert(h.ok(self@.code.len() as int));
                    assert(h.patch_sites[k as int].off + 4 <= h.code_len);
                }
                let off: usize = self.handles[i].code_off + ps.off as usize;
                if ps.kind == JIT_PATCH_CLASS {
                    self.patch_word(off, class);
                } else {
                    let w: u32 = self.rel(off, target);
                    self.patch_word(off, w);
                }
            }
            k = k + 1;
        }
    }

    pub(crate) fn reentry_off(&self, i: usize, pc: u64) -> (r: Option<u32>)
        requires
            i < self@.handles.len(),
        ensures
            r == self@.handles[i as int].resume_off(pc),
    {
        if pc == 0 {
            return Some(self.handles[i].entry_off);
        }
        let ghost h = self@.handles[i as int];
        let mut k: usize = 0;
        while k < self.handles[i].reentry.len()
            invariant
                pc != 0,
                i < self@.handles.len(),
                h == self@.handles[i as int],
                k <= h.reentry.len(),
                h.reentry_at(pc, 0) == h.reentry_at(pc, k as int),
            decreases h.reentry.len() - k,
        {
            let (p, off) = self.handles[i].reentry[k];
            if p as u64 == pc {
                return Some(off);
            }
            k = k + 1;
        }
        None
    }

    fn link(&mut self, method: Value, code: &[u8], m: MapTables) -> (r: Result<usize, String>)
        requires
            old(self)@.wf(),
            m@.fits(code@.len() as int),
        ensures
            final(self)@.wf(),
            ({
                let (j, planned) = old(self)@.linked(method, code@, m@);
                &&& final(self)@ == j
                &&& match planned {
                    Ok(h) => r is Ok && r->Ok_0 == h && h < 0xff_ffff,
                    Err(e) => r is Err && r->Err_0@ == e,
                }
            }),
    {
        reveal(JitView::linked);
        let ghost j0 = self@;
        let off: usize = match self.cache.install(code) {
            Some(off) => off,
            None => {
                return Err(text("code cache full"));
            },
        };
        proof {
            lemma_handles_grow(j0.handles, j0.code.len() as int, self@.code.len() as int);
        }
        let h: usize = self.handles.len();
        if h >= 0xff_ffff {
            return Err(text("handle table full"));
        }
        let ghost j1 = self@;
        let handle = Handle {
            code_off: off,
            code_len: code.len(),
            entry_off: m.entry_off,
            reentry: m.reentry,
            retpts: m.retpts,
            patch_sites: m.patch_sites,
            live: true,
        };
        let ghost hv = handle@;
        self.handles.push(handle);
        self.methods.push(method);
        proof {
            assert(self@.handles =~= j1.handles.push(hv));
            lemma_handle_added(j1.handles, hv, self@.code.len() as int);
        }
        Ok(h)
    }

    fn unlink(&mut self, i: usize)
        requires
            old(self)@.wf(),
            i < old(self)@.handles.len(),
        ensures
            final(self)@.wf(),
            final(self)@ == old(self)@.with_handle(
                i as int,
                HandleView { live: false, ..old(self)@.handles[i as int] },
            ),
    {
        let ghost j0 = self@;
        self.handles[i].live = false;
        proof {
            let n = j0.code.len() as int;
            assert(self@.handles =~= j0.handles.update(
                i as int,
                HandleView { live: false, ..j0.handles[i as int] },
            ));
            reveal(handles_ok);
            assert forall|k: int| 0 <= k < self@.handles.len() implies (
            #[trigger] self@.handles[k]).ok(n) by {
                assert(j0.handles[k].ok(n));
            }
        }
    }
}

impl Vm {
    /// Make the compiled-code state, with the code cache at an address
    /// where the host can run it; once made, it stays.
    pub fn jit_init_at(&mut self, base: usize)
        requires
            old(self).wf(),
            base + JIT_CACHE_BYTES_DEFAULT <= usize::MAX,
            base + JIT_CACHE_BYTES_DEFAULT <= i64::MAX,
        ensures
            final(self).wf(),
            final(self)@ == old(self)@.jit_ready(base as int),
            final(self)@.jit is Some,
            final(self)@.temp_roots == old(self)@.temp_roots,
    {
        if self.jit.is_none() {
            if self.specials.len() <= SPECIAL_JIT_SEMAPHORE && self.heap.old.bytes_remaining()
                >= 32 {
                let nil = self.nil();
                if let Some(s) = self.heap.make_semaphore(nil) {
                    self.specials.push(s);
                }
            }
            self.jit = Some(JitState::fresh(base));
        }
    }

    /// Make the compiled-code state.
    pub fn jit_init(&mut self)
        requires
            old(self).wf(),
        ensures
            final(self).wf(),
            final(self)@ == old(self)@.jit_ready(JIT_BASE_DEFAULT as int),
            final(self)@.jit is Some,
            final(self)@.temp_roots == old(self)@.temp_roots,
    {
        self.jit_init_at(JIT_BASE_DEFAULT);
    }

    /// The tiering state of a method.
    pub fn vmstate_of(&self, method: Value) -> (vs: i64)
        requires
            self.wf(),
        ensures
            vs == self@.vmstate(method),
            crate::value::SMALLINT_MIN <= vs <= crate::value::SMALLINT_MAX,
    {
        let f = self.field(method, METHOD_VMSTATE as u64);
        if f.is_int() {
            f.as_int()
        } else {
            0
        }
    }

    pub fn set_vmstate(&mut self, method: Value, vs: i64)
        requires
            old(self).wf(),
        ensures
            final(self).wf(),
            final(self)@ == old(self)@.with_vmstate(method, vs),
            final(self)@.temp_roots == old(self)@.temp_roots,
    {
        self.set_field(method, METHOD_VMSTATE as u64, Value::tagged(vs));
    }

    /// The handle of a method with compiled code.
    pub fn jit_handle_of(&self, method: Value) -> (r: Option<usize>)
        requires
            self.wf(),
        ensures
            match self@.live_handle(method) {
                None => r is None,
                Some(i) => r is Some && r->0 == i && i < self@.jit->0.handles.len(),
            },
    {
        match &self.jit {
            None => None,
            Some(j) => match index_of_handle(self.vmstate_of(method)) {
                Some(i) => {
                    if i < j.handles.len() && j.handles[i].live {
                        Some(i)
                    } else {
                        None
                    }
                },
                None => None,
            },
        }
    }

    fn jit_trip(&mut self, method: Value)
        requires
            old(self).wf(),
            old(self)@.jit is Some,
        ensures
            final(self).wf(),
            final(self)@ == old(self)@.tripped(method),
            final(self)@.temp_roots == old(self)@.temp_roots,
    {
        reveal(VmView::tripped);
        self.counters.jit_trips = self.counters.jit_trips.wrapping_add(1);
        let mut full = false;
        match &mut self.jit {
            Some(j) => {
                full = j.queue.len() >= JIT_QUEUE_CAPACITY;
                if !full {
                    j.queue.push(method);
                }
            },
            None => {},
        }
        if full {
            self.counters.jit_queue_drops = self.counters.jit_queue_drops.wrapping_add(1);
            return ;
        }
        let vs: i64 = self.vmstate_of(method);
        self.set_vmstate(method, vs | 0x1_0000);
        let sem = if self.specials.len() > SPECIAL_JIT_SEMAPHORE {
            self.specials[SPECIAL_JIT_SEMAPHORE]
        } else {
            self.nil()
        };
        if sem.is_ptr() && sem != self.nil() {
            self.semaphore_signal_internal(sem);
        }
    }

    /// Count an activation; at the threshold the method is put in the queue
    /// of compilation requests, and the request is signaled.
    pub fn bump_invocation(&mut self, method: Value)
        requires
            old(self).wf(),
        ensures
            final(self).wf(),
            final(self)@ == old(self)@.invocation_counted(method),
            final(self)@.temp_roots == old(self)@.temp_roots,
    {
        reveal(VmView::invocation_counted);
        let (enabled, threshold) = match &self.jit {
            None => {
                return ;
            },
            Some(j) => (j.enabled, j.threshold),
        };
        let vs: i64 = self.vmstate_of(method);
        if !enabled || vs & 0xffff >= 0xffff {
            return ;
        }
        assert(0 <= vs & 0xffff <= 0xffff) by (bit_vector);
        let next: i64 = vs + 1;
        self.set_vmstate(method, next);
        proof {
            lemma_jit_kept(old(self)@, method, crate::value::tag(next));
        }
        if (vs & 0xffff) + 1 >= threshold && next & 0x7_0000 == 0 {
            self.jit_trip(method);
        }
    }

    /// Take the oldest compilation request; nil when there is none.
    pub fn jit_next_request(&mut self) -> (v: Value)
        requires
            old(self).wf(),
        ensures
            final(self).wf(),
            match old(self)@.jit {
                Some(j) if j.queue.len() > 0 => {
                    &&& v == j.queue[0]
                    &&& final(self)@ == old(self)@.with_jit(
                        JitView { queue: j.queue.skip(1), ..j },
                    )
                },
                _ => v == old(self)@.nil() && final(self)@ == old(self)@,
            },
    {
        let nil = self.nil();
        match &mut self.jit {
            Some(j) => {
                if j.queue.len() > 0 {
                    let ghost q = j.queue@;
                    let v = j.queue.remove(0);
                    assert(j.queue@ =~= q.skip(1));
                    v
                } else {
                    nil
                }
            },
            None => nil,
        }
    }

    /// Unlink a method's compiled code, if it has any.
    pub fn jit_unlink_method(&mut self, method: Value)
        requires
            old(self).wf(),
        ensures
            final(self).wf(),
            final(self)@ == old(self)@.unlinked(method),
            final(self)@.temp_roots == old(self)@.temp_roots,
    {
        reveal(VmView::unlinked);
        let f = self.field(method, METHOD_VMSTATE as u64);
        if self.jit.is_none() || !f.is_int() {
            return ;
        }
        let vs: i64 = f.as_int();
        let i: usize = match index_of_handle(vs) {
            Some(i) => i,
            None => {
                return ;
            },
        };
        match &mut self.jit {
            Some(j) => {
                if i >= j.handles.len() {
                    return ;
                }
                j.unlink(i);
            },
            None => {},
        }
        self.counters.jit_unlinks = self.counters.jit_unlinks.wrapping_add(1);
        self.set_vmstate(method, (vs & 0xffff) | (vs & 0x4_0000));
    }

    fn link_code(&mut self, method: Value, code: &[u8], m: MapTables) -> (r: Result<usize, String>)
        requires
            old(self).wf(),
            old(self)@.jit is Some,
            m@.fits(code@.len() as int),
        ensures
            final(self).wf(),
            ({
                let (v, planned) = old(self)@.code_linked(method, code@, m@);
                &&& final(self)@ == v
                &&& match planned {
                    Ok(h) => r is Ok && r->Ok_0 == h,
                    Err(e) => r is Err && r->Err_0@ == e,
                }
            }),
    {
        reveal(VmView::code_linked);
        let h: usize = match &mut self.jit {
            Some(j) => match j.link(method, code, m) {
                Ok(h) => h,
                Err(e) => {
                    return Err(e);
                },
            },
            None => {
                return Err(text("code cache full"));
            },
        };
        let vs: i64 = self.vmstate_of(method);
        let k: i64 = (h + 1) as i64;
        self.set_vmstate(method, (vs & 0xffff) | (vs & 0x4_0000) | 0x2_0000 | (k << 19u32));
        self.counters.jit_installs = self.counters.jit_installs.wrapping_add(1);
        Ok(h)
    }

    /// Install compiled code for a method: check its maps, unlink older
    /// code, copy the code into the cache and give it a handle.
    pub fn jit_install(&mut self, method: Value, code: &[u8], maps: &[u8]) -> (r: Result<
        usize,
        String,
    >)
        requires
            old(self).wf(),
        ensures
            final(self).wf(),
            ({
                let (v, planned) = old(self)@.code_installed(method, code@, maps@);
                &&& final(self)@ == v
                &&& match planned {
                    Ok(h) => r is Ok && r->Ok_0 == h,
                    Err(e) => r is Err && r->Err_0@ == e,
                }
            }),
    {
        self.jit_init();
        let len: u32 = code.len() as u32;
        let m = parse_maps(maps, len)?;
        proof {
            lemma_parsed_fits(maps@, len, code@.len() as int);
            lemma_unlinked_jit(self@, method);
        }
        self.jit_unlink_method(method);
        self.link_code(method, code, m)
    }

    fn clear_states(&mut self, list: &Vec<Value>)
        requires
            old(self).wf(),
        ensures
            final(self).wf(),
            final(self)@ == old(self)@.states_cleared(list@, 0),
            final(self)@.temp_roots == old(self)@.temp_roots,
    {
        let mut i: usize = 0;
        while i < list.len()
            invariant
                i <= list@.len(),
                self.wf(),
                self@.temp_roots == old(self)@.temp_roots,
                old(self)@.states_cleared(list@, 0) == self@.states_cleared(list@, i as int),
            decreases list@.len() - i,
        {
            let f = self.field(list[i], METHOD_VMSTATE as u64);
            if f.is_int() {
                let vs: i64 = f.as_int();
                self.set_vmstate(list[i], (vs & 0xffff) | (vs & 0x4_0000));
            }
            i = i + 1;
        }
    }

    /// Drop all compiled code; refused while compiled code is running.
    pub fn jit_flush_all(&mut self) -> (r: Result<(), ()>)
        requires
            old(self).wf(),
        ensures
            final(self).wf(),
            match old(self)@.code_flushed() {
                Some(v) => r is Ok && final(self)@ == v,
                None => r is Err && final(self)@ == old(self)@,
            },
            final(self)@.temp_roots == old(self)@.temp_roots,
    {
        reveal(VmView::code_flushed);
        let mut methods: Vec<Value> = Vec::new();
        match &mut self.jit {
            None => {
                return Ok(());
            },
            Some(j) => {
                if j.in_native {
                    return Err(());
                }
                let keep: usize = j.glue_end;
                j.handles = Vec::new();
                j.queue = Vec::new();
                j.cache.reset_to(keep);
                std::mem::swap(&mut methods, &mut j.methods);
                proof {
                    assert(j@.handles =~= Seq::empty());
                    lemma_no_handles(j@.code.len() as int);
                }
            },
        }
        self.clear_states(&methods);
        Ok(())
    }

    /// Rewrite the class immediate of a patch site.
    pub fn jit_patch_class(&mut self, handle: usize, patch_idx: usize, class_index: u32)
        requires
            old(self).wf(),
            old(self)@.jit is Some,
            handle < old(self)@.jit->0.handles.len(),
            patch_idx < old(self)@.jit->0.handles[handle as int].patch_sites.len(),
            old(self)@.jit->0.handles[handle as int].patch_sites[patch_idx as int].kind
                == JIT_PATCH_CLASS,
        ensures
            final(self).wf(),
            ({
                let j = old(self)@.jit->0;
                let h = j.handles[handle as int];
                final(self)@ == old(self)@.with_jit(
                    j.patched(h.code_off + h.patch_sites[patch_idx as int].off, class_index),
                )
            }),
    {
        match &mut self.jit {
            Some(j) => {
                proof {
                    reveal(handles_ok);
                    assert(j@.handles[handle as int].ok(j@.code.len() as int));
                    assert(j@.handles[handle as int].patch_sites[patch_idx as int].off + 4
                        <= j@.handles[handle as int].code_len);
                }
                let off: usize = j.handles[handle].code_off
                    + j.handles[handle].patch_sites[patch_idx].off as usize;
                j.patch_word(off, class_index);
            },
            None => {},
        }
    }

    /// Rewrite the branch of a patch site to reach a target in the cache.
    pub fn jit_patch_target(&mut self, handle: usize, patch_idx: usize, target: u64)
        requires
            old(self).wf(),
            old(self)@.jit is Some,
            handle < old(self)@.jit->0.handles.len(),
            patch_idx < old(self)@.jit->0.handles[handle as int].patch_sites.len(),
            old(self)@.jit->0.handles[handle as int].patch_sites[patch_idx as int].kind
                == JIT_PATCH_TARGET,
            old(self)@.jit->0.base <= target < old(self)@.jit->0.base
                + old(self)@.jit->0.code.len(),
        ensures
            final(self).wf(),
            ({
                let j = old(self)@.jit->0;
                let h = j.handles[handle as int];
                let off = h.code_off + h.patch_sites[patch_idx as int].off;
                final(self)@ == old(self)@.with_jit(j.patched(off, j.rel(off, target)))
            }),
    {
        match &mut self.jit {
            Some(j) => {
                proof {
                    reveal(handles_ok);
                    assert(j@.handles[handle as int].ok(j@.code.len() as int));
                    assert(j@.handles[handle as int].patch_sites[patch_idx as int].off + 4
                        <= j@.handles[handle as int].code_len);
                }
                let off: usize = j.handles[handle].code_off
                    + j.handles[handle].patch_sites[patch_idx].off as usize;
                let w: u32 = j.rel(off, target);
                j.patch_word(off, w);
            },
            None => {},
        }
    }

    /// Send every compiled inline cache back to the miss path.
    pub fn jit_clear_compiled_sites(&mut self)
        requires
            old(self).wf(),
        ensures
            final(self).wf(),
            final(self)@ == (match old(self)@.jit {
                None => old(self)@,
                Some(j) => old(self)@.with_jit(j.sites_cleared(0)),
            }),
    {
        match &mut self.jit {
            Some(j) => {
                j.clear_sites();
            },
            None => {},
        }
    }

    fn entry_of(&self, callee: Value) -> (a: u64)
        requires
            self.wf(),
            self@.jit is Some,
        ensures
            a == self@.callee_entry(callee),
            a <= i64::MAX,
    {
        let h = self.jit_handle_of(callee);
        match &self.jit {
            Some(j) => match h {
                Some(i) => {
                    proof {
                        reveal(handles_ok);
                        assert(j@.handles[i as int].ok(j@.code.len() as int));
                    }
                    (j.cache.base + j.handles[i].code_off + j.handles[i].entry_off as usize) as u64
                },
                None => (j.cache.base + j.call_interp_off) as u64,
            },
            None => 0,
        }
    }

    /// Make a caller's compiled send site call a method for a class.
    pub fn jit_patch_send_site(
        &mut self,
        caller_method: Value,
        site: u8,
        class_index: u32,
        callee_method: Value,
    )
        requires
            old(self).wf(),
        ensures
            final(self).wf(),
            final(self)@ == old(self)@.send_site_patched(
                caller_method,
                site,
                class_index,
                callee_method,
            ),
    {
        reveal(VmView::send_site_patched);
        let i: usize = match self.jit_handle_of(caller_method) {
            Some(i) => i,
            None => {
                return ;
            },
        };
        if let Some(n) = self.primitive_of(callee_method) {
            if n == PRIM_PERFORM_WITH_ARGS || n == PRIM_SNAPSHOT {
                return ;
            }
        }
        let target: u64 = self.entry_of(callee_method);
        if self.jit_handle_of(callee_method).is_some() {
            self.counters.jit_sites_direct = self.counters.jit_sites_direct.wrapping_add(1);
        } else {
            self.counters.jit_sites_interp = self.counters.jit_sites_interp.wrapping_add(1);
        }
        match &mut self.jit {
            Some(j) => {
                j.patch_site(i, site, class_index, target);
            },
            None => {},
        }
    }

    pub(crate) fn frame_is_unwind_cont(&self, regs: &Regs) -> (b: bool)
        requires
            self.wf(),
            regs.ok(),
        ensures
            b == crate::machine::at(self@, *regs).unwind_frame(),
    {
        let f = self.field(regs.stack, regs.frame + FRAME_FLAGS as u64);
        f.is_int() && f.as_int() & 8 != 0
    }

    /// Where the current frame continues in compiled code, when compiled
    /// code may be entered.
    pub fn native_resume_addr(&self, regs: &Regs) -> (r: Option<u64>)
        requires
            self.wf(),
            regs.ok(),
        ensures
            r == crate::machine::at(self@, *regs).entry_addr(),
    {
        let h = self.jit_handle_of(regs.method);
        match &self.jit {
            None => None,
            Some(j) => {
                if j.in_native {
                    return None;
                }
                let i: usize = match h {
                    Some(i) => i,
                    None => {
                        return None;
                    },
                };
                if self.frame_is_unwind_cont(regs) {
                    return None;
                }
                match j.reentry_off(i, regs.pc) {
                    None => None,
                    Some(off) => {
                        proof {
                            lemma_resume_in_bounds(j@, i as int, regs.pc);
                        }
                        Some((j.cache.base + j.handles[i].code_off + off as usize) as u64)
                    },
                }
            },
        }
    }

    /// Where a return into a method's frame at a send site continues in its
    /// compiled code.
    pub fn native_return_addr(&self, method: Value, site: u8) -> (r: Option<u64>)
        requires
            self.wf(),
        ensures
            r == self@.return_addr(method, site),
    {
        let h = self.jit_handle_of(method);
        match &self.jit {
            None => None,
            Some(j) => {
                let i: usize = match h {
                    Some(i) => i,
                    None => {
                        return None;
                    },
                };
                if j.in_native || site == RETINFO_NO_SITE || site as usize
                    >= j.handles[i].retpts.len() {
                    return None;
                }
                let off: u32 = j.handles[i].retpts[site as usize];
                if off == JIT_RETPOINT_NONE {
                    return None;
                }
                proof {
                    reveal(handles_ok);
                    assert(j@.handles[i as int].ok(j@.code.len() as int));
                    assert(j@.handles[i as int].retpts[site as int] == off);
                }
                Some((j.cache.base + j.handles[i].code_off + off as usize) as u64)
            },
        }
    }

    /// Read or change a setting; a refusal is a primitive's failure code.
    pub fn jit_control(&mut self, op: i64, arg: i64) -> (r: Result<i64, i64>)
        requires
            old(self).wf(),
        ensures
            final(self).wf(),
            (final(self)@, r) == old(self)@.controlled(op, arg),
    {
        reveal(VmView::controlled);
        self.jit_init();
        if op == JITCTL_FLUSH_ALL {
            return match self.jit_flush_all() {
                Ok(()) => Ok(0),
                Err(()) => Err(FAIL_UNSUPPORTED_CONTEXT),
            };
        }
        if op == JITCTL_SET_PROFILING_LEVEL {
            if self.jit_flush_all().is_err() {
                return Err(FAIL_UNSUPPORTED_CONTEXT);
            }
            proof {
                lemma_flushed_jit(old(self)@.jit_ready(JIT_BASE_DEFAULT as int));
            }
        }
        match &mut self.jit {
            None => Err(FAIL_WRONG_TYPE),
            Some(j) => {
                if op == JITCTL_GET_THRESHOLD {
                    Ok(j.threshold)
                } else if op == JITCTL_SET_THRESHOLD {
                    j.threshold = if arg < 1 {
                        1
                    } else {
                        arg
                    };
                    Ok(j.threshold)
                } else if op == JITCTL_GET_ENABLED {
                    Ok(
                        if j.enabled {
                            1
                        } else {
                            0
                        },
                    )
                } else if op == JITCTL_SET_ENABLED {
                    j.enabled = arg != 0;
                    Ok(
                        if arg != 0 {
                            1
                        } else {
                            0
                        },
                    )
                } else if op == JITCTL_GET_PROFILING_LEVEL {
                    Ok(j.profiling_level)
                } else if op == JITCTL_SET_PROFILING_LEVEL {
                    let level: i64 = if arg < 0 {
                        0
                    } else if arg > 2 {
                        2
                    } else {
                        arg
                    };
                    j.profiling_level = level;
                    Ok(level)
                } else {
                    Err(FAIL_WRONG_TYPE)
                }
            },
        }
    }

    /// The references that compiled code keeps alive: the requests, oldest
    /// first, and the methods of the handles.
    pub fn jit_roots(&self) -> (r: Vec<Value>)
        ensures
            r@ == crate::gc::queue_of(self@.jit) + crate::gc::methods_of(self@.jit),
    {
        let mut r: Vec<Value> = Vec::new();
        match &self.jit {
            Some(j) => {
                crate::gc::push_all(&mut r, &j.queue);
                crate::gc::push_all(&mut r, &j.methods);
            },
            None => {},
        }
        assert(r@ =~= crate::gc::queue_of(self@.jit) + crate::gc::methods_of(self@.jit));
        r
    }
}

impl Maps {
    /// The offsets lie in `n` bytes of code.
    pub open spec fn fits(self, n: int) -> bool {
        &&& self.entry_off < n
        &&& forall|k: int|
            0 <= k < self.patch_sites.len() ==> (#[trigger] self.patch_sites[k]).off + 4 <= n
        &&& forall|k: int| 0 <= k < self.reentry.len() ==> (#[trigger] self.reentry[k]).1 < n
        &&& forall|k: int|
            0 <= k < self.retpts.len() ==> #[trigger] self.retpts[k] == JIT_RETPOINT_NONE
                || self.retpts[k] < n
    }
}

proof fn lemma_reentries_fit(
    maps: Seq<u8>,
    len: u32,
    i: int,
    n: int,
    last: int,
    acc: Seq<(u16, u32)>,
)
    requires
        forall|k: int| 0 <= k < acc.len() ==> (#[trigger] acc[k]).1 < len,
    ensures
        reentries(maps, len, i, n, last, acc) matches Ok(s) ==> forall|k: int|
            0 <= k < s.len() ==> (#[trigger] s[k]).1 < len,
    decreases n - i,
{
    if i < n {
        let pc = word_at(maps, 4 + 2 * i);
        let off = word_at(maps, 5 + 2 * i);
        if pc > last && pc < MAX_METHOD_INSTRUCTIONS && off < len {
            lemma_reentries_fit(maps, len, i + 1, n, pc as int, acc.push((pc as u16, off)));
        }
    }
}

proof fn lemma_return_points_fit(maps: Seq<u8>, len: u32, at: int, i: int, n: int, acc: Seq<u32>)
    requires
        forall|k: int|
            0 <= k < acc.len() ==> #[trigger] acc[k] == JIT_RETPOINT_NONE || acc[k] < len,
    ensures
        return_points(maps, len, at, i, n, acc) matches Ok(s) ==> forall|k: int|
            0 <= k < s.len() ==> #[trigger] s[k] == JIT_RETPOINT_NONE || s[k] < len,
    decreases n - i,
{
    if i < n {
        let off = word_at(maps, at + i);
        if off == JIT_RETPOINT_NONE || off < len {
            lemma_return_points_fit(maps, len, at, i + 1, n, acc.push(off));
        }
    }
}

proof fn lemma_patches_fit(maps: Seq<u8>, len: u32, at: int, i: int, n: int, acc: Seq<PatchSite>)
    requires
        forall|k: int| 0 <= k < acc.len() ==> (#[trigger] acc[k]).off + 4 <= len,
    ensures
        patches(maps, len, at, i, n, acc) matches Ok(s) ==> forall|k: int|
            0 <= k < s.len() ==> (#[trigger] s[k]).off + 4 <= len,
    decreases n - i,
{
    if i < n {
        let off = word_at(maps, at + 2 * i);
        let ks = word_at(maps, at + 2 * i + 1);
        let kind = (ks & 0xff) as u8;
        let site = ((ks >> 8u32) & 0xff) as u8;
        if (kind == JIT_PATCH_CLASS || kind == JIT_PATCH_TARGET) && off + 4 <= len {
            lemma_patches_fit(maps, len, at, i + 1, n, acc.push(PatchSite { off, kind, site }));
        }
    }
}

/// Maps that are accepted stay in the code.
proof fn lemma_parsed_fits(maps: Seq<u8>, len: u32, n: int)
    requires
        len <= n,
    ensures
        parsed(maps, len) matches Ok(m) ==> m.fits(n),
{
    reveal(parsed);
    let a = word_at(maps, 1) as int;
    let b = word_at(maps, 2) as int;
    let c = word_at(maps, 3) as int;
    lemma_reentries_fit(maps, len, 0, a, -1, Seq::empty());
    lemma_return_points_fit(maps, len, 4 + 2 * a, 0, b, Seq::empty());
    lemma_patches_fit(maps, len, 4 + 2 * a + b, 0, c, Seq::empty());
}

proof fn lemma_handles_grow(handles: Seq<HandleView>, n: int, m: int)
    requires
        handles_ok(handles, n),
        n <= m,
    ensures
        handles_ok(handles, m),
{
    reveal(handles_ok);
    assert forall|i: int| 0 <= i < handles.len() implies (#[trigger] handles[i]).ok(m) by {
        assert(handles[i].ok(n));
    }
}

proof fn lemma_handle_added(handles: Seq<HandleView>, h: HandleView, n: int)
    requires
        handles_ok(handles, n),
        h.ok(n),
    ensures
        handles_ok(handles.push(h), n),
{
    reveal(handles_ok);
    let t = handles.push(h);
    assert forall|i: int| 0 <= i < t.len() implies (#[trigger] t[i]).ok(n) by {
        if i < handles.len() {
            assert(handles[i].ok(n));
        }
    }
}

proof fn lemma_reentry_in_bounds(h: HandleView, pc: u64, i: int, n: int)
    requires
        h.ok(n),
        0 <= i,
    ensures
        h.reentry_at(pc, i) matches Some(off) ==> off < h.code_len,
    decreases h.reentry.len() - i,
{
    if i < h.reentry.len() {
        if h.reentry[i].0 != pc {
            lemma_reentry_in_bounds(h, pc, i + 1, n);
        }
    }
}

pub(crate) proof fn lemma_resume_in_bounds(j: JitView, i: int, pc: u64)
    requires
        j.wf(),
        0 <= i < j.handles.len(),
    ensures
        j.handles[i].resume_off(pc) matches Some(off) ==> 0 <= j.handles[i].code_off && j.base
            + j.handles[i].code_off + off < j.base + j.code.len(),
{
    reveal(handles_ok);
    let n = j.code.len() as int;
    assert(j.handles[i].ok(n));
    lemma_reentry_in_bounds(j.handles[i], pc, 0, n);
}

/// Storing a slot leaves the compiled-code state alone.
proof fn lemma_jit_kept(v: VmView, o: Value, x: Value)
    ensures
        v.with_field(o, METHOD_VMSTATE as int, x).jit == v.jit,
{
    reveal(VmView::with_field);
}

proof fn lemma_unlinked_jit(v: VmView, method: Value)
    requires
        v.jit is Some,
    ensures
        v.unlinked(method).jit is Some,
{
    reveal(VmView::unlinked);
    reveal(VmView::with_field);
}

pub(crate) proof fn lemma_states_jit(v: VmView, list: Seq<Value>, i: int)
    ensures
        v.states_cleared(list, i).jit == v.jit,
    decreases list.len() - i,
{
    if 0 <= i < list.len() {
        let f = v.field(list[i], METHOD_VMSTATE as int);
        if f.tagged_int() {
            let x = crate::value::tag(state_kept(f.int_value()));
            lemma_jit_kept(v, list[i], x);
            lemma_states_jit(v.with_vmstate(list[i], state_kept(f.int_value())), list, i + 1);
        } else {
            lemma_states_jit(v, list, i + 1);
        }
    }
}

proof fn lemma_flushed_jit(v: VmView)
    requires
        v.jit is Some,
    ensures
        v.code_flushed() matches Some(v1) ==> v1.jit is Some,
{
    reveal(VmView::code_flushed);
    let j = v.jit->0;
    lemma_states_jit(
        v.with_jit(
            JitView {
                code: j.code.take(j.glue_end),
                handles: Seq::empty(),
                methods: Seq::empty(),
                queue: Seq::empty(),
                ..j
            },
        ),
        j.methods,
        0,
    );
}

} // verus!
