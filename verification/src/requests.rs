//! What the machine asks of its host, and what the host answers.
//!
//! The machine does no input or output itself. A primitive that needs the
//! host stops the run with a request; the host performs it and hands back a
//! reply, which completes the primitive.

use vstd::prelude::*;

verus! {

/// A request to the host.
#[derive(Debug)]
pub enum HostRequest {
    /// Open a file under the given descriptor. Mode 0 reads, 1 writes from
    /// empty, 2 reads and writes, 3 appends; all but 0 create the file.
    FileOpen { path: String, mode: i64, fd: usize },
    FileClose { fd: usize },
    FileRead { fd: usize, count: u64 },
    FileWrite { fd: usize, data: Vec<u8> },
    FilePosition { fd: usize },
    FileSetPosition { fd: usize, pos: u64 },
    FileSize { fd: usize },
    FileDelete { path: String },
    /// Write to standard output (1) or standard error (2).
    StdioWrite { stream: i64, data: Vec<u8> },
    StdioRead { count: u64 },
    SaveImage { path: String, image: Vec<u8> },
    /// A floating-point operation, by primitive number, on IEEE 754 bits.
    Float { prim: u16, x: u64, y: u64 },
    /// The conversion of an integer to a float.
    IntAsFloat { n: i64 },
    /// Milliseconds since the machine was started.
    MonotonicMs,
    /// Milliseconds since 1970.
    WallMs,
}

/// What a [`HostRequest`] says.
pub enum Ask {
    FileOpen { path: Seq<char>, mode: i64, fd: usize },
    FileClose { fd: usize },
    FileRead { fd: usize, count: u64 },
    FileWrite { fd: usize, data: Seq<u8> },
    FilePosition { fd: usize },
    FileSetPosition { fd: usize, pos: u64 },
    FileSize { fd: usize },
    FileDelete { path: Seq<char> },
    StdioWrite { stream: i64, data: Seq<u8> },
    StdioRead { count: u64 },
    SaveImage { path: Seq<char>, image: Seq<u8> },
    Float { prim: u16, x: u64, y: u64 },
    IntAsFloat { n: i64 },
    MonotonicMs,
    WallMs,
}

impl View for HostRequest {
    type V = Ask;

    open spec fn view(&self) -> Ask {
        match *self {
            HostRequest::FileOpen { path, mode, fd } => Ask::FileOpen { path: path@, mode, fd },
            HostRequest::FileClose { fd } => Ask::FileClose { fd },
            HostRequest::FileRead { fd, count } => Ask::FileRead { fd, count },
            HostRequest::FileWrite { fd, data } => Ask::FileWrite { fd, data: data@ },
            HostRequest::FilePosition { fd } => Ask::FilePosition { fd },
            HostRequest::FileSetPosition { fd, pos } => Ask::FileSetPosition { fd, pos },
            HostRequest::FileSize { fd } => Ask::FileSize { fd },
            HostRequest::FileDelete { path } => Ask::FileDelete { path: path@ },
            HostRequest::StdioWrite { stream, data } => Ask::StdioWrite { stream, data: data@ },
            HostRequest::StdioRead { count } => Ask::StdioRead { count },
            HostRequest::SaveImage { path, image } => Ask::SaveImage {
                path: path@,
                image: image@,
            },
            HostRequest::Float { prim, x, y } => Ask::Float { prim, x, y },
            HostRequest::IntAsFloat { n } => Ask::IntAsFloat { n },
            HostRequest::MonotonicMs => Ask::MonotonicMs,
            HostRequest::WallMs => Ask::WallMs,
        }
    }
}

/// The host's answer.
#[derive(Debug)]
pub enum HostReply {
    /// It could not be done.
    Failed,
    /// It could not be done, for this cause.
    Refused(String),
    Done,
    /// A position, a size, a time, or a truncated float.
    Number(i64),
    /// Bytes read.
    Bytes(Vec<u8>),
    /// The IEEE 754 bits of a float.
    Bits(u64),
    /// The outcome of a comparison.
    Truth(bool),
}

/// What a [`HostReply`] says.
pub enum Answer {
    Failed,
    Refused(Seq<char>),
    Done,
    Number(i64),
    Bytes(Seq<u8>),
    Bits(u64),
    Truth(bool),
}

impl View for HostReply {
    type V = Answer;

    open spec fn view(&self) -> Answer {
        match *self {
            HostReply::Failed => Answer::Failed,
            HostReply::Refused(cause) => Answer::Refused(cause@),
            HostReply::Done => Answer::Done,
            HostReply::Number(n) => Answer::Number(n),
            HostReply::Bytes(b) => Answer::Bytes(b@),
            HostReply::Bits(b) => Answer::Bits(b),
            HostReply::Truth(t) => Answer::Truth(t),
        }
    }
}

/// How a primitive ended.
#[derive(Debug)]
pub enum PrimOutcome {
    /// It succeeded with this result; no frame was pushed.
    Value(crate::value::Value),
    /// It failed cleanly: the method's body runs with this code.
    Fail(i64),
    /// It transferred control; the registers are up to date.
    Control,
    /// It needs the host.
    Ask(HostRequest),
}

/// What a [`PrimOutcome`] says.
pub enum Outcome {
    Value(crate::value::Value),
    Fail(i64),
    Control,
    Ask(Ask),
}

impl View for PrimOutcome {
    type V = Outcome;

    open spec fn view(&self) -> Outcome {
        match *self {
            PrimOutcome::Value(v) => Outcome::Value(v),
            PrimOutcome::Fail(c) => Outcome::Fail(c),
            PrimOutcome::Control => Outcome::Control,
            PrimOutcome::Ask(r) => Outcome::Ask(r@),
        }
    }
}

} // verus!
