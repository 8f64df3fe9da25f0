//! Primitives that need the host: files, standard streams, snapshots and
//! floating point. Each checks its arguments and asks; the host's answer is
//! turned into the primitive's outcome here too.

use crate::machine::{Machine, Regs};
use crate::prims::{FAIL_NOT_FOUND, FAIL_OVERFLOW, FAIL_WRONG_TYPE};
use crate::profile::utf8_lossy;
use crate::requests::{Answer, Ask, HostReply, HostRequest, Outcome, PrimOutcome};
use crate::value::Value;
use crate::vm::{Fault, Vm, VmError, VmView};
use crate::treaty::{
    CLASS_BYTEARRAY, CLASS_FLOAT, FMT_BYTES_BASE, PRIM_FILE_POSITION, PRIM_FILE_SET_POSITION,
    PRIM_FLOAT_SQRT, PRIM_FLOAT_TRUNCATED,
};
use vstd::prelude::*;

verus! {

/// The first descriptor from `i` on that is not open.
pub open spec fn first_free(files: Seq<bool>, i: int) -> int
    decreases files.len() - i,
{
    if i >= files.len() {
        files.len() as int
    } else if !files[i] {
        i
    } else {
        first_free(files, i + 1)
    }
}

/// The descriptors after one more was opened.
pub open spec fn with_open(files: Seq<bool>, fd: int) -> Seq<bool> {
    if fd < files.len() {
        files.update(fd, true)
    } else {
        files.push(true)
    }
}

impl Machine {
    pub open spec fn asks(self, a: Ask) -> Result<(Machine, Outcome), Fault> {
        Ok((self, Outcome::Ask(a)))
    }

    /// The bytes in a frame slot; `None` where it holds no byte object.
    pub open spec fn bytes_arg(self, k: int) -> Option<Seq<u8>> {
        let v = self.get(k);
        if v.tagged_ptr() && self.vm.heap.bytes_ok(v.addr()) {
            Some(self.vm.heap.bytes(v.addr()))
        } else {
            None
        }
    }

    /// The path in a frame slot.
    pub open spec fn path_arg(self, k: int) -> Option<Seq<char>> {
        match self.bytes_arg(k) {
            Some(b) => Some(crate::profile::lossy_text(b)),
            None => None,
        }
    }

    /// The open descriptor in a frame slot.
    pub open spec fn fd_arg(self, k: int) -> Option<usize> {
        let v = self.get(k);
        let n = v.int_value();
        if v.tagged_int() && 0 <= n < self.vm.files.len() && self.vm.files[n as int] {
            Some(n as usize)
        } else {
            None
        }
    }

    /// The natural number in a frame slot.
    pub open spec fn count_arg(self, k: int) -> Option<u64> {
        let v = self.get(k);
        if v.tagged_int() && v.int_value() >= 0 {
            Some(v.int_value() as u64)
        } else {
            None
        }
    }

    /// The IEEE 754 bits of the float in a frame slot.
    pub open spec fn float_arg(self, k: int) -> Option<u64> {
        let v = self.get(k);
        if self.vm.is_a(v, CLASS_FLOAT) && self.vm.heap.bytes_ok(v.addr())
            && self.vm.heap.byte_len(v.addr()) == 8 {
            Some(self.vm.heap.slot(v.addr(), 0).0)
        } else {
            None
        }
    }

    #[verifier::opaque]
    pub open spec fn prim_file_open(self, r: int) -> Result<(Machine, Outcome), Fault> {
        let mode = self.get(r + 2);
        match self.path_arg(r + 1) {
            None => self.fails(FAIL_WRONG_TYPE),
            Some(path) => if !mode.tagged_int() || !(0 <= mode.int_value() <= 3) {
                self.fails(FAIL_WRONG_TYPE)
            } else {
                self.asks(
                    Ask::FileOpen {
                        path,
                        mode: mode.int_value(),
                        fd: first_free(self.vm.files, 0) as usize,
                    },
                )
            },
        }
    }

    #[verifier::opaque]
    pub open spec fn prim_file_close(self, r: int) -> Result<(Machine, Outcome), Fault> {
        match self.fd_arg(r + 1) {
            None => self.fails(FAIL_WRONG_TYPE),
            Some(fd) => self.on(
                VmView { files: self.vm.files.update(fd as int, false), ..self.vm },
            ).asks(Ask::FileClose { fd }),
        }
    }

    #[verifier::opaque]
    pub open spec fn prim_file_read(self, r: int) -> Result<(Machine, Outcome), Fault> {
        match (self.fd_arg(r + 1), self.count_arg(r + 2)) {
            (Some(fd), Some(count)) => self.asks(Ask::FileRead { fd, count }),
            _ => self.fails(FAIL_WRONG_TYPE),
        }
    }

    #[verifier::opaque]
    pub open spec fn prim_file_write(self, r: int) -> Result<(Machine, Outcome), Fault> {
        match (self.fd_arg(r + 1), self.bytes_arg(r + 2)) {
            (Some(fd), Some(data)) => self.asks(Ask::FileWrite { fd, data }),
            _ => self.fails(FAIL_WRONG_TYPE),
        }
    }

    #[verifier::opaque]
    pub open spec fn prim_file_seek(self, n: u16, r: int) -> Result<(Machine, Outcome), Fault> {
        match self.fd_arg(r + 1) {
            None => self.fails(FAIL_WRONG_TYPE),
            Some(fd) => if n == PRIM_FILE_POSITION {
                self.asks(Ask::FilePosition { fd })
            } else if n == PRIM_FILE_SET_POSITION {
                match self.count_arg(r + 2) {
                    None => self.fails(FAIL_WRONG_TYPE),
                    Some(pos) => self.asks(Ask::FileSetPosition { fd, pos }),
                }
            } else {
                self.asks(Ask::FileSize { fd })
            },
        }
    }

    #[verifier::opaque]
    pub open spec fn prim_file_delete(self, r: int) -> Result<(Machine, Outcome), Fault> {
        match self.path_arg(r + 1) {
            None => self.fails(FAIL_WRONG_TYPE),
            Some(path) => self.asks(Ask::FileDelete { path }),
        }
    }

    /// Output is captured as well when it goes to standard output.
    #[verifier::opaque]
    pub open spec fn prim_stdio_write(self, r: int) -> Result<(Machine, Outcome), Fault> {
        let fd = self.get(r + 2);
        match self.bytes_arg(r + 1) {
            None => self.fails(FAIL_WRONG_TYPE),
            Some(data) => if !fd.tagged_int() {
                self.fails(FAIL_WRONG_TYPE)
            } else if fd.int_value() == 1 {
                self.on(VmView { capture: self.vm.capture + data, ..self.vm }).asks(
                    Ask::StdioWrite { stream: 1, data },
                )
            } else if fd.int_value() == 2 {
                self.asks(Ask::StdioWrite { stream: 2, data })
            } else {
                self.fails(FAIL_WRONG_TYPE)
            },
        }
    }

    #[verifier::opaque]
    pub open spec fn prim_stdio_read(self, r: int) -> Result<(Machine, Outcome), Fault> {
        match self.count_arg(r + 1) {
            None => self.fails(FAIL_WRONG_TYPE),
            Some(count) => self.asks(Ask::StdioRead { count }),
        }
    }

    /// Everything young tenured: two scavenges with no age limit.
    #[verifier::opaque]
    pub open spec fn young_emptied(self) -> Result<Machine, Fault> {
        let v0 = VmView { tenure: 0, ..self.vm.saved(self.regs) };
        match v0.scavenged() {
            Err(f) => Err(f),
            Ok(v1) => match v1.scavenged() {
                Err(f) => Err(f),
                Ok(v2) => {
                    let v3 = VmView { tenure: self.vm.tenure, ..v2 };
                    Ok(Machine { vm: v3, regs: v3.refreshed(self.regs) })
                },
            },
        }
    }

    /// The saved image sees true as the snapshot's result; the original run
    /// answers false.
    #[verifier::opaque]
    pub open spec fn prim_snapshot(self, r: int, dest: u8) -> Result<(Machine, Outcome), Fault> {
        match self.path_arg(r + 1) {
            None => self.fails(FAIL_WRONG_TYPE),
            Some(path) => match self.put(dest as int, self.vm.true_v()).young_emptied() {
                Err(f) => Err(f),
                Ok(m) => {
                    let (vm, image) = m.vm.imaged();
                    match image {
                        Err(_) => m.on(vm).fails(FAIL_NOT_FOUND),
                        Ok(image) => m.on(vm).asks(Ask::SaveImage { path, image }),
                    }
                },
            },
        }
    }

    #[verifier::opaque]
    pub open spec fn prim_int_as_float(self, r: int) -> Result<(Machine, Outcome), Fault> {
        let x = self.get(r);
        if !x.tagged_int() {
            self.fails(FAIL_WRONG_TYPE)
        } else {
            self.asks(Ask::IntAsFloat { n: x.int_value() })
        }
    }

    /// A float operation: on two floats, or on one for the truncation and the
    /// square root.
    #[verifier::opaque]
    pub open spec fn prim_float(self, n: u16, r: int) -> Result<(Machine, Outcome), Fault> {
        let y = if n == PRIM_FLOAT_TRUNCATED || n == PRIM_FLOAT_SQRT {
            Some(0u64)
        } else {
            self.float_arg(r + 1)
        };
        match (self.float_arg(r), y) {
            (Some(x), Some(y)) => self.asks(Ask::Float { prim: n, x, y }),
            _ => self.fails(FAIL_WRONG_TYPE),
        }
    }

    /// A ByteArray of the host's bytes.
    #[verifier::opaque]
    pub open spec fn bytes_given(self, data: Seq<u8>) -> Result<(Machine, Outcome), Fault> {
        match self.allocated(CLASS_BYTEARRAY, FMT_BYTES_BASE, data.len() as int) {
            Err(f) => Err(f),
            Ok((m, v)) => m.on(
                m.vm.on_heap(m.vm.heap.put_bytes(v.addr(), data, data.len() as int)),
            ).gives(v),
        }
    }

    /// A Float with the host's bits.
    #[verifier::opaque]
    pub open spec fn float_given(self, bits: u64) -> Result<(Machine, Outcome), Fault> {
        match self.allocated(CLASS_FLOAT, FMT_BYTES_BASE, 8) {
            Err(f) => Err(f),
            Ok((m, v)) => m.on(m.vm.with_field(v, 0, Value(bits))).gives(v),
        }
    }

    /// The outcome of a primitive, given what was asked and the host's
    /// answer.
    pub open spec fn answered(self, ask: Ask, a: Answer) -> Result<(Machine, Outcome), Fault> {
        match ask {
            Ask::FileOpen { path, mode, fd } => if a is Done {
                self.on(
                    VmView { files: with_open(self.vm.files, fd as int), ..self.vm },
                ).gives(crate::value::tag(fd as i64))
            } else {
                self.fails(FAIL_NOT_FOUND)
            },
            Ask::FileClose { fd } => self.gives(self.vm.nil()),
            Ask::FileRead { fd, count } => match a {
                Answer::Bytes(b) => self.bytes_given(b),
                _ => self.fails(FAIL_NOT_FOUND),
            },
            Ask::FileWrite { fd, data } => if a is Done {
                self.gives(crate::value::tag(data.len() as i64))
            } else {
                self.fails(FAIL_NOT_FOUND)
            },
            Ask::FilePosition { fd } => self.number_given(a),
            Ask::FileSetPosition { fd, pos } => self.number_given(a),
            Ask::FileSize { fd } => self.number_given(a),
            Ask::FileDelete { path } => if a is Done {
                self.gives(self.vm.nil())
            } else {
                self.fails(FAIL_NOT_FOUND)
            },
            Ask::StdioWrite { stream, data } => if a is Done {
                self.gives(crate::value::tag(data.len() as i64))
            } else {
                self.fails(FAIL_NOT_FOUND)
            },
            Ask::StdioRead { count } => match a {
                Answer::Bytes(b) => self.bytes_given(b),
                _ => self.bytes_given(Seq::empty()),
            },
            Ask::SaveImage { path, image } => if a is Done {
                self.gives(self.vm.false_v())
            } else {
                self.fails(FAIL_NOT_FOUND)
            },
            Ask::Float { prim, x, y } => match a {
                Answer::Bits(b) => self.float_given(b),
                Answer::Truth(t) => self.gives(self.vm.bool_v(t)),
                Answer::Number(n) => match crate::arith::small(n as int) {
                    Some(n) => self.gives(crate::value::tag(n)),
                    None => self.fails(FAIL_OVERFLOW),
                },
                _ => self.fails(FAIL_OVERFLOW),
            },
            Ask::IntAsFloat { n } => match a {
                Answer::Bits(b) => self.float_given(b),
                _ => self.fails(FAIL_NOT_FOUND),
            },
            Ask::MonotonicMs => self.number_given(a),
            Ask::WallMs => self.number_given(a),
        }
    }

    pub open spec fn number_given(self, a: Answer) -> Result<(Machine, Outcome), Fault> {
        match a {
            Answer::Number(n) => self.gives(crate::value::tag(n)),
            _ => self.fails(FAIL_NOT_FOUND),
        }
    }
}

impl Vm {
    fn bytes_arg(&self, regs: &Regs, k: u64) -> (r: Option<Vec<u8>>)
        requires
            self.wf(),
            regs.ok(),
            k <= 300,
        ensures
            match crate::machine::at(self@, *regs).bytes_arg(k as int) {
                Some(b) => r is Some && r->0@ == b,
                None => r is None,
            },
    {
        let v = self.get(regs, k);
        if v.is_ptr() && self.heap.bytes_ok(v) {
            Some(self.heap.bytes(v.0 as usize))
        } else {
            None
        }
    }

    fn path_arg(&self, regs: &Regs, k: u64) -> (r: Option<String>)
        requires
            self.wf(),
            regs.ok(),
            k <= 300,
        ensures
            match crate::machine::at(self@, *regs).path_arg(k as int) {
                Some(p) => r is Some && r->0@ == p,
                None => r is None,
            },
    {
        match self.bytes_arg(regs, k) {
            Some(b) => Some(utf8_lossy(&b)),
            None => None,
        }
    }

    fn fd_arg(&self, regs: &Regs, k: u64) -> (r: Option<usize>)
        requires
            self.wf(),
            regs.ok(),
            k <= 300,
        ensures
            r == crate::machine::at(self@, *regs).fd_arg(k as int),
            r is Some ==> r->0 < self@.files.len(),
    {
        let v = self.get(regs, k);
        let n: i64 = v.as_int();
        if v.is_int() && n >= 0 && (n as u64) < self.files.len() as u64 && self.files[n as usize] {
            Some(n as usize)
        } else {
            None
        }
    }

    fn count_arg(&self, regs: &Regs, k: u64) -> (r: Option<u64>)
        requires
            self.wf(),
            regs.ok(),
            k <= 300,
        ensures
            r == crate::machine::at(self@, *regs).count_arg(k as int),
    {
        let v = self.get(regs, k);
        if v.is_int() && v.as_int() >= 0 {
            Some(v.as_int() as u64)
        } else {
            None
        }
    }

    fn float_arg(&self, regs: &Regs, k: u64) -> (r: Option<u64>)
        requires
            self.wf(),
            regs.ok(),
            k <= 300,
        ensures
            r == crate::machine::at(self@, *regs).float_arg(k as int),
    {
        let v = self.get(regs, k);
        if self.is_a(v, CLASS_FLOAT) && self.heap.bytes_ok(v) && self.heap.byte_size(v.0 as usize)
            == 8 {
            Some(self.float_value(v))
        } else {
            None
        }
    }

    fn free_descriptor(&self) -> (fd: usize)
        ensures
            fd == first_free(self@.files, 0),
    {
        let mut i: usize = 0;
        while i < self.files.len()
            invariant
                i <= self.files@.len(),
                first_free(self@.files, 0) == first_free(self@.files, i as int),
            decreases self.files@.len() - i,
        {
            if !self.files[i] {
                return i;
            }
            i = i + 1;
        }
        i
    }

    /// Ask to open a file: path and mode.
    pub(crate) fn prim_file_open(&mut self, regs: &mut Regs, r: u64) -> (res: Result<
        PrimOutcome,
        VmError,
    >)
        requires
            old(self).wf(),
            old(regs).ok(),
            r <= 255,
        ensures
            final(self).wf(),
            final(regs).ok(),
            crate::prims::prim_ran(
                res,
                crate::machine::at(final(self)@, *final(regs)),
                crate::machine::at(old(self)@, *old(regs)).prim_file_open(r as int),
            ),
            res is Ok ==> final(self)@.temp_roots.len() == old(self)@.temp_roots.len(),
            final(self)@.temp_roots.len() >= old(self)@.temp_roots.len(),
    {
        reveal(Machine::prim_file_open);
        let path = match self.path_arg(regs, r + 1) {
            Some(p) => p,
            None => {
                return Ok(PrimOutcome::Fail(FAIL_WRONG_TYPE));
            },
        };
        let mode = self.get(regs, r + 2);
        if !mode.is_int() || mode.as_int() < 0 || mode.as_int() > 3 {
            return Ok(PrimOutcome::Fail(FAIL_WRONG_TYPE));
        }
        let fd: usize = self.free_descriptor();
        Ok(PrimOutcome::Ask(HostRequest::FileOpen { path, mode: mode.as_int(), fd }))
    }

    pub(crate) fn prim_file_close(&mut self, regs: &mut Regs, r: u64) -> (res: Result<
        PrimOutcome,
        VmError,
    >)
        requires
            old(self).wf(),
            old(regs).ok(),
            r <= 255,
        ensures
            final(self).wf(),
            final(regs).ok(),
            crate::prims::prim_ran(
                res,
                crate::machine::at(final(self)@, *final(regs)),
                crate::machine::at(old(self)@, *old(regs)).prim_file_close(r as int),
            ),
            res is Ok ==> final(self)@.temp_roots.len() == old(self)@.temp_roots.len(),
            final(self)@.temp_roots.len() >= old(self)@.temp_roots.len(),
    {
        reveal(Machine::prim_file_close);
        match self.fd_arg(regs, r + 1) {
            None => Ok(PrimOutcome::Fail(FAIL_WRONG_TYPE)),
            Some(fd) => {
                self.files.set(fd, false);
                Ok(PrimOutcome::Ask(HostRequest::FileClose { fd }))
            },
        }
    }

    pub(crate) fn prim_file_read(&mut self, regs: &mut Regs, r: u64) -> (res: Result<
        PrimOutcome,
        VmError,
    >)
        requires
            old(self).wf(),
            old(regs).ok(),
            r <= 255,
        ensures
            final(self).wf(),
            final(regs).ok(),
            crate::prims::prim_ran(
                res,
                crate::machine::at(final(self)@, *final(regs)),
                crate::machine::at(old(self)@, *old(regs)).prim_file_read(r as int),
            ),
            res is Ok ==> final(self)@.temp_roots.len() == old(self)@.temp_roots.len(),
            final(self)@.temp_roots.len() >= old(self)@.temp_roots.len(),
    {
        reveal(Machine::prim_file_read);
        match (self.fd_arg(regs, r + 1), self.count_arg(regs, r + 2)) {
            (Some(fd), Some(count)) => Ok(PrimOutcome::Ask(HostRequest::FileRead { fd, count })),
            _ => Ok(PrimOutcome::Fail(FAIL_WRONG_TYPE)),
        }
    }

    pub(crate) fn prim_file_write(&mut self, regs: &mut Regs, r: u64) -> (res: Result<
        PrimOutcome,
        VmError,
    >)
        requires
            old(self).wf(),
            old(regs).ok(),
            r <= 255,
        ensures
            final(self).wf(),
            final(regs).ok(),
            crate::prims::prim_ran(
                res,
                crate::machine::at(final(self)@, *final(regs)),
                crate::machine::at(old(self)@, *old(regs)).prim_file_write(r as int),
            ),
            res is Ok ==> final(self)@.temp_roots.len() == old(self)@.temp_roots.len(),
            final(self)@.temp_roots.len() >= old(self)@.temp_roots.len(),
    {
        reveal(Machine::prim_file_write);
        match (self.fd_arg(regs, r + 1), self.bytes_arg(regs, r + 2)) {
            (Some(fd), Some(data)) => Ok(PrimOutcome::Ask(HostRequest::FileWrite { fd, data })),
            _ => Ok(PrimOutcome::Fail(FAIL_WRONG_TYPE)),
        }
    }

    pub(crate) fn prim_file_seek_family(&mut self, regs: &mut Regs, n: u16, r: u64) -> (res: Result<
        PrimOutcome,
        VmError,
    >)
        requires
            old(self).wf(),
            old(regs).ok(),
            r <= 255,
        ensures
            final(self).wf(),
            final(regs).ok(),
            crate::prims::prim_ran(
                res,
                crate::machine::at(final(self)@, *final(regs)),
                crate::machine::at(old(self)@, *old(regs)).prim_file_seek(n, r as int),
            ),
            res is Ok ==> final(self)@.temp_roots.len() == old(self)@.temp_roots.len(),
            final(self)@.temp_roots.len() >= old(self)@.temp_roots.len(),
    {
        reveal(Machine::prim_file_seek);
        match self.fd_arg(regs, r + 1) {
            None => Ok(PrimOutcome::Fail(FAIL_WRONG_TYPE)),
            Some(fd) => {
                if n == PRIM_FILE_POSITION {
                    Ok(PrimOutcome::Ask(HostRequest::FilePosition { fd }))
                } else if n == PRIM_FILE_SET_POSITION {
                    match self.count_arg(regs, r + 2) {
                        None => Ok(PrimOutcome::Fail(FAIL_WRONG_TYPE)),
                        Some(pos) => Ok(PrimOutcome::Ask(HostRequest::FileSetPosition { fd, pos })),
                    }
                } else {
                    Ok(PrimOutcome::Ask(HostRequest::FileSize { fd }))
                }
            },
        }
    }

    pub(crate) fn prim_file_delete(&mut self, regs: &mut Regs, r: u64) -> (res: Result<
        PrimOutcome,
        VmError,
    >)
        requires
            old(self).wf(),
            old(regs).ok(),
            r <= 255,
        ensures
            final(self).wf(),
            final(regs).ok(),
            crate::prims::prim_ran(
                res,
                crate::machine::at(final(self)@, *final(regs)),
                crate::machine::at(old(self)@, *old(regs)).prim_file_delete(r as int),
            ),
            res is Ok ==> final(self)@.temp_roots.len() == old(self)@.temp_roots.len(),
            final(self)@.temp_roots.len() >= old(self)@.temp_roots.len(),
    {
        reveal(Machine::prim_file_delete);
        match self.path_arg(regs, r + 1) {
            None => Ok(PrimOutcome::Fail(FAIL_WRONG_TYPE)),
            Some(path) => Ok(PrimOutcome::Ask(HostRequest::FileDelete { path })),
        }
    }

    fn capture(&mut self, data: &Vec<u8>)
        requires
            old(self).wf(),
        ensures
            final(self).wf(),
            final(self)@ == (VmView { capture: old(self)@.capture + data@, ..old(self)@ }),
    {
        let mut i: usize = 0;
        let ghost v0 = self@;
        while i < data.len()
            invariant
                i <= data@.len(),
                self.wf(),
                self@ == (VmView {
                    capture: v0.capture + data@.subrange(0, i as int),
                    ..v0
                }),
            decreases data@.len() - i,
        {
            self.stdout_capture.push(data[i]);
            i = i + 1;
            assert(self@.capture =~= v0.capture + data@.subrange(0, i as int));
        }
        assert(data@.subrange(0, i as int) =~= data@);
    }

    pub(crate) fn prim_stdio_write(&mut self, regs: &mut Regs, r: u64) -> (res: Result<
        PrimOutcome,
        VmError,
    >)
        requires
            old(self).wf(),
            old(regs).ok(),
            r <= 255,
        ensures
            final(self).wf(),
            final(regs).ok(),
            crate::prims::prim_ran(
                res,
                crate::machine::at(final(self)@, *final(regs)),
                crate::machine::at(old(self)@, *old(regs)).prim_stdio_write(r as int),
            ),
            res is Ok ==> final(self)@.temp_roots.len() == old(self)@.temp_roots.len(),
            final(self)@.temp_roots.len() >= old(self)@.temp_roots.len(),
    {
        reveal(Machine::prim_stdio_write);
        let data = match self.bytes_arg(regs, r + 1) {
            Some(b) => b,
            None => {
                return Ok(PrimOutcome::Fail(FAIL_WRONG_TYPE));
            },
        };
        let fd = self.get(regs, r + 2);
        if !fd.is_int() {
            return Ok(PrimOutcome::Fail(FAIL_WRONG_TYPE));
        }
        if fd.as_int() == 1 {
            self.capture(&data);
            Ok(PrimOutcome::Ask(HostRequest::StdioWrite { stream: 1, data }))
        } else if fd.as_int() == 2 {
            Ok(PrimOutcome::Ask(HostRequest::StdioWrite { stream: 2, data }))
        } else {
            Ok(PrimOutcome::Fail(FAIL_WRONG_TYPE))
        }
    }

    pub(crate) fn prim_stdio_read(&mut self, regs: &mut Regs, r: u64) -> (res: Result<
        PrimOutcome,
        VmError,
    >)
        requires
            old(self).wf(),
            old(regs).ok(),
            r <= 255,
        ensures
            final(self).wf(),
            final(regs).ok(),
            crate::prims::prim_ran(
                res,
                crate::machine::at(final(self)@, *final(regs)),
                crate::machine::at(old(self)@, *old(regs)).prim_stdio_read(r as int),
            ),
            res is Ok ==> final(self)@.temp_roots.len() == old(self)@.temp_roots.len(),
            final(self)@.temp_roots.len() >= old(self)@.temp_roots.len(),
    {
        reveal(Machine::prim_stdio_read);
        match self.count_arg(regs, r + 1) {
            None => Ok(PrimOutcome::Fail(FAIL_WRONG_TYPE)),
            Some(count) => Ok(PrimOutcome::Ask(HostRequest::StdioRead { count })),
        }
    }

    /// Tenure everything young.
    pub(crate) fn empty_young(&mut self, regs: &mut Regs) -> (r: Result<(), VmError>)
        requires
            old(self).wf(),
            old(regs).ok(),
        ensures
            final(self).wf(),
            final(regs).ok(),
            crate::machine::ran(
                r,
                crate::machine::at(final(self)@, *final(regs)),
                crate::machine::at(old(self)@, *old(regs)).young_emptied(),
            ),
            r is Ok ==> final(self)@.temp_roots.len() == old(self)@.temp_roots.len(),
            final(self)@.temp_roots.len() >= old(self)@.temp_roots.len(),
            final(regs).frame == old(regs).frame,
            final(regs).pc == old(regs).pc,
    {
        reveal(Machine::young_emptied);
        let saved: u64 = self.tenure_threshold;
        proof {
            reveal(VmView::saved);
            reveal(VmView::with_field);
        }
        self.save_regs(regs);
        self.tenure_threshold = 0;
        self.collect_young()?;
        self.collect_young()?;
        self.tenure_threshold = saved;
        self.refresh_regs(regs);
        Ok(())
    }

    pub(crate) fn prim_snapshot(&mut self, regs: &mut Regs, r: u64, dest: u8) -> (res: Result<
        PrimOutcome,
        VmError,
    >)
        requires
            old(self).wf(),
            old(regs).ok(),
            r <= 255,
        ensures
            final(self).wf(),
            final(regs).ok(),
            crate::prims::prim_ran(
                res,
                crate::machine::at(final(self)@, *final(regs)),
                crate::machine::at(old(self)@, *old(regs)).prim_snapshot(r as int, dest),
            ),
            res is Ok ==> final(self)@.temp_roots.len() == old(self)@.temp_roots.len(),
            final(self)@.temp_roots.len() >= old(self)@.temp_roots.len(),
    {
        reveal(Machine::prim_snapshot);
        let path = match self.path_arg(regs, r + 1) {
            Some(p) => p,
            None => {
                return Ok(PrimOutcome::Fail(FAIL_WRONG_TYPE));
            },
        };
        let t = self.true_v();
        self.put(regs, dest as u64, t);
        self.empty_young(regs)?;
        match self.write_image() {
            Ok(image) => Ok(PrimOutcome::Ask(HostRequest::SaveImage { path, image })),
            Err(_) => Ok(PrimOutcome::Fail(FAIL_NOT_FOUND)),
        }
    }

    pub(crate) fn prim_int_as_float(&mut self, regs: &mut Regs, r: u64) -> (res: Result<
        PrimOutcome,
        VmError,
    >)
        requires
            old(self).wf(),
            old(regs).ok(),
            r <= 255,
        ensures
            final(self).wf(),
            final(regs).ok(),
            crate::prims::prim_ran(
                res,
                crate::machine::at(final(self)@, *final(regs)),
                crate::machine::at(old(self)@, *old(regs)).prim_int_as_float(r as int),
            ),
            res is Ok ==> final(self)@.temp_roots.len() == old(self)@.temp_roots.len(),
            final(self)@.temp_roots.len() >= old(self)@.temp_roots.len(),
    {
        reveal(Machine::prim_int_as_float);
        let x = self.get(regs, r);
        if !x.is_int() {
            return Ok(PrimOutcome::Fail(FAIL_WRONG_TYPE));
        }
        Ok(PrimOutcome::Ask(HostRequest::IntAsFloat { n: x.as_int() }))
    }

    pub(crate) fn prim_float(&mut self, regs: &mut Regs, n: u16, r: u64) -> (res: Result<
        PrimOutcome,
        VmError,
    >)
        requires
            old(self).wf(),
            old(regs).ok(),
            r <= 255,
        ensures
            final(self).wf(),
            final(regs).ok(),
            crate::prims::prim_ran(
                res,
                crate::machine::at(final(self)@, *final(regs)),
                crate::machine::at(old(self)@, *old(regs)).prim_float(n, r as int),
            ),
            res is Ok ==> final(self)@.temp_roots.len() == old(self)@.temp_roots.len(),
            final(self)@.temp_roots.len() >= old(self)@.temp_roots.len(),
    {
        reveal(Machine::prim_float);
        let y = if n == PRIM_FLOAT_TRUNCATED || n == PRIM_FLOAT_SQRT {
            Some(0u64)
        } else {
            self.float_arg(regs, r + 1)
        };
        match (self.float_arg(regs, r), y) {
            (Some(x), Some(y)) => Ok(PrimOutcome::Ask(HostRequest::Float { prim: n, x, y })),
            _ => Ok(PrimOutcome::Fail(FAIL_WRONG_TYPE)),
        }
    }

    fn give_bytes(&mut self, regs: &mut Regs, data: &Vec<u8>) -> (res: Result<PrimOutcome, VmError>)
        requires
            old(self).wf(),
            old(regs).ok(),
        ensures
            final(self).wf(),
            final(regs).ok(),
            crate::prims::prim_ran(
                res,
                crate::machine::at(final(self)@, *final(regs)),
                crate::machine::at(old(self)@, *old(regs)).bytes_given(data@),
            ),
            res is Ok ==> final(self)@.temp_roots.len() == old(self)@.temp_roots.len(),
            final(self)@.temp_roots.len() >= old(self)@.temp_roots.len(),
    {
        reveal(Machine::bytes_given);
        let v = self.alloc_gc(regs, CLASS_BYTEARRAY, FMT_BYTES_BASE, data.len())?;
        self.heap.poke_bytes(v, data.as_slice());
        Ok(PrimOutcome::Value(v))
    }

    fn give_float(&mut self, regs: &mut Regs, bits: u64) -> (res: Result<PrimOutcome, VmError>)
        requires
            old(self).wf(),
            old(regs).ok(),
        ensures
            final(self).wf(),
            final(regs).ok(),
            crate::prims::prim_ran(
                res,
                crate::machine::at(final(self)@, *final(regs)),
                crate::machine::at(old(self)@, *old(regs)).float_given(bits),
            ),
            res is Ok ==> final(self)@.temp_roots.len() == old(self)@.temp_roots.len(),
            final(self)@.temp_roots.len() >= old(self)@.temp_roots.len(),
    {
        reveal(Machine::float_given);
        let v = self.alloc_gc(regs, CLASS_FLOAT, FMT_BYTES_BASE, 8)?;
        self.set_field(v, 0, Value(bits));
        Ok(PrimOutcome::Value(v))
    }

    fn number_outcome(reply: &HostReply) -> (o: PrimOutcome)
        ensures
            o@ == (match reply@ {
                Answer::Number(n) => Outcome::Value(crate::value::tag(n)),
                _ => Outcome::Fail(FAIL_NOT_FOUND),
            }),
    {
        match reply {
            HostReply::Number(n) => PrimOutcome::Value(Value::tagged(*n)),
            _ => PrimOutcome::Fail(FAIL_NOT_FOUND),
        }
    }

    /// Turn the host's answer into the primitive's outcome.
    pub(crate) fn answer(&mut self, regs: &mut Regs, ask: &HostRequest, reply: &HostReply) -> (res: Result<
        PrimOutcome,
        VmError,
    >)
        requires
            old(self).wf(),
            old(regs).ok(),
        ensures
            final(self).wf(),
            final(regs).ok(),
            crate::prims::prim_ran(
                res,
                crate::machine::at(final(self)@, *final(regs)),
                crate::machine::at(old(self)@, *old(regs)).answered(ask@, reply@),
            ),
            res is Ok ==> final(self)@.temp_roots.len() == old(self)@.temp_roots.len(),
            final(self)@.temp_roots.len() >= old(self)@.temp_roots.len(),
    {
        let done = match reply {
            HostReply::Done => true,
            _ => false,
        };
        match ask {
            HostRequest::FileOpen { path, mode, fd } => {
                if done {
                    let fd: usize = *fd;
                    if fd < self.files.len() {
                        self.files.set(fd, true);
                    } else {
                        self.files.push(true);
                    }
                    Ok(PrimOutcome::Value(Value::tagged(fd as i64)))
                } else {
                    Ok(PrimOutcome::Fail(FAIL_NOT_FOUND))
                }
            },
            HostRequest::FileClose { fd } => Ok(PrimOutcome::Value(self.nil())),
            HostRequest::FileRead { fd, count } => match reply {
                HostReply::Bytes(b) => self.give_bytes(regs, b),
                _ => Ok(PrimOutcome::Fail(FAIL_NOT_FOUND)),
            },
            HostRequest::FileWrite { fd, data } => {
                if done {
                    Ok(PrimOutcome::Value(Value::tagged(data.len() as i64)))
                } else {
                    Ok(PrimOutcome::Fail(FAIL_NOT_FOUND))
                }
            },
            HostRequest::FilePosition { fd } => Ok(Self::number_outcome(reply)),
            HostRequest::FileSetPosition { fd, pos } => Ok(Self::number_outcome(reply)),
            HostRequest::FileSize { fd } => Ok(Self::number_outcome(reply)),
            HostRequest::FileDelete { path } => {
                if done {
                    Ok(PrimOutcome::Value(self.nil()))
                } else {
                    Ok(PrimOutcome::Fail(FAIL_NOT_FOUND))
                }
            },
            HostRequest::StdioWrite { stream, data } => {
                if done {
                    Ok(PrimOutcome::Value(Value::tagged(data.len() as i64)))
                } else {
                    Ok(PrimOutcome::Fail(FAIL_NOT_FOUND))
                }
            },
            HostRequest::StdioRead { count } => match reply {
                HostReply::Bytes(b) => self.give_bytes(regs, b),
                _ => {
                    let none: Vec<u8> = Vec::new();
                    assert(none@ =~= Seq::empty());
                    self.give_bytes(regs, &none)
                },
            },
            HostRequest::SaveImage { path, image } => {
                if done {
                    Ok(PrimOutcome::Value(self.false_v()))
                } else {
                    Ok(PrimOutcome::Fail(FAIL_NOT_FOUND))
                }
            },
            HostRequest::Float { prim, x, y } => match reply {
                HostReply::Bits(b) => self.give_float(regs, *b),
                HostReply::Truth(t) => Ok(PrimOutcome::Value(self.bool_v(*t))),
                HostReply::Number(n) => {
                    let n: i64 = *n;
                    match Value::try_from_int(n) {
                        Some(v) => Ok(PrimOutcome::Value(v)),
                        None => Ok(PrimOutcome::Fail(FAIL_OVERFLOW)),
                    }
                },
                _ => Ok(PrimOutcome::Fail(FAIL_OVERFLOW)),
            },
            HostRequest::IntAsFloat { n } => match reply {
                HostReply::Bits(b) => self.give_float(regs, *b),
                _ => Ok(PrimOutcome::Fail(FAIL_NOT_FOUND)),
            },
            HostRequest::MonotonicMs => Ok(Self::number_outcome(reply)),
            HostRequest::WallMs => Ok(Self::number_outcome(reply)),
        }
    }
}

} // verus!
