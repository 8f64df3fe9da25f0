//! Assembler and disassembler for the 32-bit register bytecode.
//!
//! Encodings:
//! ```text
//! ABC:  [ opcode:8 | A:8 | B:8 | C:8 ]
//! AD:   [ opcode:8 | A:8 |   D:16    ]   ; D unsigned, or signed for jumps
//! ```

use crate::text::{append_int, text};
use crate::treaty::{
    OP_ADD, OP_AT, OP_ATPUT, OP_BREAK, OP_CAPTURE, OP_CLASSOF, OP_DIV, OP_EQNUM, OP_GE, OP_GETBOX,
    OP_GETIVAR, OP_GT, OP_IDEQ, OP_JUMP, OP_JUMPFALSE, OP_JUMPTRUE, OP_LE, OP_LOADFALSE,
    OP_LOADINT, OP_LOADK, OP_LOADNIL, OP_LOADSELF, OP_LOADTRUE, OP_LT, OP_MKBOX, OP_MKCLOSURE,
    OP_MOD, OP_MOVE, OP_MUL, OP_NLR, OP_NOP, OP_NOT, OP_PRIM, OP_RET, OP_RETSELF, OP_SEND,
    OP_SENDSUPER, OP_SETBOX, OP_SETIVAR, OP_SIZE, OP_SUB,
};
use vstd::prelude::*;
use vstd::string::*;

verus! {

/// One instruction.
#[derive(Clone, Copy, PartialEq, Eq, Structural, Debug)]
#[allow(inconsistent_fields)]
pub enum Insn {
    Nop,
    Break,
    Move { d: u8, a: u8 },
    LoadK { d: u8, k: u16 },
    LoadInt { d: u8, imm: i16 },
    LoadNil { d: u8 },
    LoadTrue { d: u8 },
    LoadFalse { d: u8 },
    LoadSelf { d: u8 },
    GetIvar { d: u8, i: u8 },
    SetIvar { i: u8, a: u8 },
    GetBox { d: u8, a: u8 },
    SetBox { a: u8, b: u8 },
    MkBox { d: u8, a: u8 },
    Send { d: u8, r: u8, site: u8 },
    SendSuper { d: u8, r: u8, site: u8 },
    Ret { a: u8 },
    RetSelf,
    Nlr { a: u8 },
    Prim { n: u16 },
    MkClosure { d: u8, b: u16 },
    Capture { c: u8, a: u8 },
    Jump { off: i16 },
    JumpTrue { a: u8, off: i16 },
    JumpFalse { a: u8, off: i16 },
    Add { d: u8, a: u8, b: u8 },
    Sub { d: u8, a: u8, b: u8 },
    Mul { d: u8, a: u8, b: u8 },
    Div { d: u8, a: u8, b: u8 },
    Mod { d: u8, a: u8, b: u8 },
    Lt { d: u8, a: u8, b: u8 },
    Gt { d: u8, a: u8, b: u8 },
    Le { d: u8, a: u8, b: u8 },
    Ge { d: u8, a: u8, b: u8 },
    EqNum { d: u8, a: u8, b: u8 },
    At { d: u8, a: u8, b: u8 },
    AtPut { d: u8, a: u8, b: u8 },
    Size { d: u8, a: u8 },
    ClassOf { d: u8, a: u8 },
    Not { d: u8, a: u8 },
    IdEq { d: u8, a: u8, b: u8 },
}

/// The word with the given opcode and three operand bytes.
pub open spec fn abc_word(op: u8, a: u8, b: u8, c: u8) -> u32 {
    (op as u32) | ((a as u32) << 8u32) | ((b as u32) << 16u32) | ((c as u32) << 24u32)
}

/// The word with the given opcode, operand byte and 16-bit operand.
pub open spec fn ad_word(op: u8, a: u8, d: u16) -> u32 {
    (op as u32) | ((a as u32) << 8u32) | ((d as u32) << 16u32)
}

/// The opcode byte of a word.
pub open spec fn op_of(w: u32) -> u8 {
    (w & 0xff) as u8
}

pub open spec fn a_of(w: u32) -> u8 {
    ((w >> 8u32) & 0xff) as u8
}

pub open spec fn b_of(w: u32) -> u8 {
    ((w >> 16u32) & 0xff) as u8
}

pub open spec fn c_of(w: u32) -> u8 {
    ((w >> 24u32) & 0xff) as u8
}

pub open spec fn d_of(w: u32) -> u16 {
    (w >> 16u32) as u16
}

/// Reading the operands of an ABC word back.
pub proof fn lemma_abc(op: u8, a: u8, b: u8, c: u8)
    ensures
        op_of(abc_word(op, a, b, c)) == op,
        a_of(abc_word(op, a, b, c)) == a,
        b_of(abc_word(op, a, b, c)) == b,
        c_of(abc_word(op, a, b, c)) == c,
        op_of(op as u32) == op,
{
    let w = (op as u32) | ((a as u32) << 8u32) | ((b as u32) << 16u32) | ((c as u32) << 24u32);
    assert((w & 0xff) as u8 == op && ((w >> 8u32) & 0xff) as u8 == a && ((w >> 16u32) & 0xff) as u8
        == b && ((w >> 24u32) & 0xff) as u8 == c && (op as u32 & 0xff) as u8 == op) by (bit_vector)
        requires
            w == (op as u32) | ((a as u32) << 8u32) | ((b as u32) << 16u32) | ((c as u32) << 24u32),
    ;
}

/// Reading the operands of an AD word back, signed or unsigned.
pub proof fn lemma_ad(op: u8, a: u8, d: u16, i: i16)
    ensures
        op_of(ad_word(op, a, d)) == op,
        a_of(ad_word(op, a, d)) == a,
        d_of(ad_word(op, a, d)) == d,
        (i as u16) as i16 == i,
{
    let w = (op as u32) | ((a as u32) << 8u32) | ((d as u32) << 16u32);
    assert((w & 0xff) as u8 == op && ((w >> 8u32) & 0xff) as u8 == a && (w >> 16u32) as u16 == d && (
    i as u16) as i16 == i) by (bit_vector)
        requires
            w == (op as u32) | ((a as u32) << 8u32) | ((d as u32) << 16u32),
    ;
}

fn abc(op: u8, a: u8, b: u8, c: u8) -> (w: u32)
    ensures
        w == abc_word(op, a, b, c),
{
    (op as u32) | ((a as u32) << 8) | ((b as u32) << 16) | ((c as u32) << 24)
}

fn ad(op: u8, a: u8, d: u16) -> (w: u32)
    ensures
        w == ad_word(op, a, d),
{
    (op as u32) | ((a as u32) << 8) | ((d as u32) << 16)
}

impl Insn {
    /// The word of an instruction.
    pub open spec fn word(self) -> u32 {
        match self {
            Insn::Nop => abc_word(OP_NOP, 0, 0, 0),
            Insn::Break => abc_word(OP_BREAK, 0, 0, 0),
            Insn::Move { d, a } => abc_word(OP_MOVE, d, a, 0),
            Insn::LoadK { d, k } => ad_word(OP_LOADK, d, k),
            Insn::LoadInt { d, imm } => ad_word(OP_LOADINT, d, imm as u16),
            Insn::LoadNil { d } => ad_word(OP_LOADNIL, d, 0),
            Insn::LoadTrue { d } => ad_word(OP_LOADTRUE, d, 0),
            Insn::LoadFalse { d } => ad_word(OP_LOADFALSE, d, 0),
            Insn::LoadSelf { d } => ad_word(OP_LOADSELF, d, 0),
            Insn::GetIvar { d, i } => abc_word(OP_GETIVAR, d, i, 0),
            Insn::SetIvar { i, a } => abc_word(OP_SETIVAR, i, a, 0),
            Insn::GetBox { d, a } => abc_word(OP_GETBOX, d, a, 0),
            Insn::SetBox { a, b } => abc_word(OP_SETBOX, a, b, 0),
            Insn::MkBox { d, a } => abc_word(OP_MKBOX, d, a, 0),
            Insn::Send { d, r, site } => abc_word(OP_SEND, d, r, site),
            Insn::SendSuper { d, r, site } => abc_word(OP_SENDSUPER, d, r, site),
            Insn::Ret { a } => ad_word(OP_RET, a, 0),
            Insn::RetSelf => ad_word(OP_RETSELF, 0, 0),
            Insn::Nlr { a } => ad_word(OP_NLR, a, 0),
            Insn::Prim { n } => ad_word(OP_PRIM, 0, n),
            Insn::MkClosure { d, b } => ad_word(OP_MKCLOSURE, d, b),
            Insn::Capture { c, a } => abc_word(OP_CAPTURE, c, a, 0),
            Insn::Jump { off } => ad_word(OP_JUMP, 0, off as u16),
            Insn::JumpTrue { a, off } => ad_word(OP_JUMPTRUE, a, off as u16),
            Insn::JumpFalse { a, off } => ad_word(OP_JUMPFALSE, a, off as u16),
            Insn::Add { d, a, b } => abc_word(OP_ADD, d, a, b),
            Insn::Sub { d, a, b } => abc_word(OP_SUB, d, a, b),
            Insn::Mul { d, a, b } => abc_word(OP_MUL, d, a, b),
            Insn::Div { d, a, b } => abc_word(OP_DIV, d, a, b),
            Insn::Mod { d, a, b } => abc_word(OP_MOD, d, a, b),
            Insn::Lt { d, a, b } => abc_word(OP_LT, d, a, b),
            Insn::Gt { d, a, b } => abc_word(OP_GT, d, a, b),
            Insn::Le { d, a, b } => abc_word(OP_LE, d, a, b),
            Insn::Ge { d, a, b } => abc_word(OP_GE, d, a, b),
            Insn::EqNum { d, a, b } => abc_word(OP_EQNUM, d, a, b),
            Insn::At { d, a, b } => abc_word(OP_AT, d, a, b),
            Insn::AtPut { d, a, b } => abc_word(OP_ATPUT, d, a, b),
            Insn::Size { d, a } => abc_word(OP_SIZE, d, a, 0),
            Insn::ClassOf { d, a } => abc_word(OP_CLASSOF, d, a, 0),
            Insn::Not { d, a } => abc_word(OP_NOT, d, a, 0),
            Insn::IdEq { d, a, b } => abc_word(OP_IDEQ, d, a, b),
        }
    }

    /// The instruction of a word, when its opcode is known.
    pub open spec fn of_word(w: u32) -> Option<Insn> {
        let op = op_of(w);
        let a = a_of(w);
        let b = b_of(w);
        let c = c_of(w);
        let d = d_of(w);
        if op == OP_NOP {
            Some(Insn::Nop)
        } else if op == OP_BREAK {
            Some(Insn::Break)
        } else if op == OP_MOVE {
            Some(Insn::Move { d: a, a: b })
        } else if op == OP_LOADK {
            Some(Insn::LoadK { d: a, k: d })
        } else if op == OP_LOADINT {
            Some(Insn::LoadInt { d: a, imm: d as i16 })
        } else if op == OP_LOADNIL {
            Some(Insn::LoadNil { d: a })
        } else if op == OP_LOADTRUE {
            Some(Insn::LoadTrue { d: a })
        } else if op == OP_LOADFALSE {
            Some(Insn::LoadFalse { d: a })
        } else if op == OP_LOADSELF {
            Some(Insn::LoadSelf { d: a })
        } else if op == OP_GETIVAR {
            Some(Insn::GetIvar { d: a, i: b })
        } else if op == OP_SETIVAR {
            Some(Insn::SetIvar { i: a, a: b })
        } else if op == OP_GETBOX {
            Some(Insn::GetBox { d: a, a: b })
        } else if op == OP_SETBOX {
            Some(Insn::SetBox { a, b })
        } else if op == OP_MKBOX {
            Some(Insn::MkBox { d: a, a: b })
        } else if op == OP_SEND {
            Some(Insn::Send { d: a, r: b, site: c })
        } else if op == OP_SENDSUPER {
            Some(Insn::SendSuper { d: a, r: b, site: c })
        } else if op == OP_RET {
            Some(Insn::Ret { a })
        } else if op == OP_RETSELF {
            Some(Insn::RetSelf)
        } else if op == OP_NLR {
            Some(Insn::Nlr { a })
        } else if op == OP_PRIM {
            Some(Insn::Prim { n: d })
        } else if op == OP_MKCLOSURE {
            Some(Insn::MkClosure { d: a, b: d })
        } else if op == OP_CAPTURE {
            Some(Insn::Capture { c: a, a: b })
        } else if op == OP_JUMP {
            Some(Insn::Jump { off: d as i16 })
        } else if op == OP_JUMPTRUE {
            Some(Insn::JumpTrue { a, off: d as i16 })
        } else if op == OP_JUMPFALSE {
            Some(Insn::JumpFalse { a, off: d as i16 })
        } else if op == OP_ADD {
            Some(Insn::Add { d: a, a: b, b: c })
        } else if op == OP_SUB {
            Some(Insn::Sub { d: a, a: b, b: c })
        } else if op == OP_MUL {
            Some(Insn::Mul { d: a, a: b, b: c })
        } else if op == OP_DIV {
            Some(Insn::Div { d: a, a: b, b: c })
        } else if op == OP_MOD {
            Some(Insn::Mod { d: a, a: b, b: c })
        } else if op == OP_LT {
            Some(Insn::Lt { d: a, a: b, b: c })
        } else if op == OP_GT {
            Some(Insn::Gt { d: a, a: b, b: c })
        } else if op == OP_LE {
            Some(Insn::Le { d: a, a: b, b: c })
        } else if op == OP_GE {
            Some(Insn::Ge { d: a, a: b, b: c })
        } else if op == OP_EQNUM {
            Some(Insn::EqNum { d: a, a: b, b: c })
        } else if op == OP_AT {
            Some(Insn::At { d: a, a: b, b: c })
        } else if op == OP_ATPUT {
            Some(Insn::AtPut { d: a, a: b, b: c })
        } else if op == OP_SIZE {
            Some(Insn::Size { d: a, a: b })
        } else if op == OP_CLASSOF {
            Some(Insn::ClassOf { d: a, a: b })
        } else if op == OP_NOT {
            Some(Insn::Not { d: a, a: b })
        } else if op == OP_IDEQ {
            Some(Insn::IdEq { d: a, a: b, b: c })
        } else {
            None
        }
    }

    /// The 32-bit word of the instruction.
    pub fn encode(self) -> (w: u32)
        ensures
            w == self.word(),
    {
        match self {
            Insn::Nop => abc(OP_NOP, 0, 0, 0),
            Insn::Break => abc(OP_BREAK, 0, 0, 0),
            Insn::Move { d, a } => abc(OP_MOVE, d, a, 0),
            Insn::LoadK { d, k } => ad(OP_LOADK, d, k),
            Insn::LoadInt { d, imm } => ad(OP_LOADINT, d, imm as u16),
            Insn::LoadNil { d } => ad(OP_LOADNIL, d, 0),
            Insn::LoadTrue { d } => ad(OP_LOADTRUE, d, 0),
            Insn::LoadFalse { d } => ad(OP_LOADFALSE, d, 0),
            Insn::LoadSelf { d } => ad(OP_LOADSELF, d, 0),
            Insn::GetIvar { d, i } => abc(OP_GETIVAR, d, i, 0),
            Insn::SetIvar { i, a } => abc(OP_SETIVAR, i, a, 0),
            Insn::GetBox { d, a } => abc(OP_GETBOX, d, a, 0),
            Insn::SetBox { a, b } => abc(OP_SETBOX, a, b, 0),
            Insn::MkBox { d, a } => abc(OP_MKBOX, d, a, 0),
            Insn::Send { d, r, site } => abc(OP_SEND, d, r, site),
            Insn::SendSuper { d, r, site } => abc(OP_SENDSUPER, d, r, site),
            Insn::Ret { a } => ad(OP_RET, a, 0),
            Insn::RetSelf => ad(OP_RETSELF, 0, 0),
            Insn::Nlr { a } => ad(OP_NLR, a, 0),
            Insn::Prim { n } => ad(OP_PRIM, 0, n),
            Insn::MkClosure { d, b } => ad(OP_MKCLOSURE, d, b),
            Insn::Capture { c, a } => abc(OP_CAPTURE, c, a, 0),
            Insn::Jump { off } => ad(OP_JUMP, 0, off as u16),
            Insn::JumpTrue { a, off } => ad(OP_JUMPTRUE, a, off as u16),
            Insn::JumpFalse { a, off } => ad(OP_JUMPFALSE, a, off as u16),
            Insn::Add { d, a, b } => abc(OP_ADD, d, a, b),
            Insn::Sub { d, a, b } => abc(OP_SUB, d, a, b),
            Insn::Mul { d, a, b } => abc(OP_MUL, d, a, b),
            Insn::Div { d, a, b } => abc(OP_DIV, d, a, b),
            Insn::Mod { d, a, b } => abc(OP_MOD, d, a, b),
            Insn::Lt { d, a, b } => abc(OP_LT, d, a, b),
            Insn::Gt { d, a, b } => abc(OP_GT, d, a, b),
            Insn::Le { d, a, b } => abc(OP_LE, d, a, b),
            Insn::Ge { d, a, b } => abc(OP_GE, d, a, b),
            Insn::EqNum { d, a, b } => abc(OP_EQNUM, d, a, b),
            Insn::At { d, a, b } => abc(OP_AT, d, a, b),
            Insn::AtPut { d, a, b } => abc(OP_ATPUT, d, a, b),
            Insn::Size { d, a } => abc(OP_SIZE, d, a, 0),
            Insn::ClassOf { d, a } => abc(OP_CLASSOF, d, a, 0),
            Insn::Not { d, a } => abc(OP_NOT, d, a, 0),
            Insn::IdEq { d, a, b } => abc(OP_IDEQ, d, a, b),
        }
    }

    /// The instruction of a word; `None` exactly for unknown opcodes.
    pub fn decode(word: u32) -> (r: Option<Insn>)
        ensures
            r == Insn::of_word(word),
    {
        let op: u8 = (word & 0xff) as u8;
        let a: u8 = ((word >> 8) & 0xff) as u8;
        let b: u8 = ((word >> 16) & 0xff) as u8;
        let c: u8 = ((word >> 24) & 0xff) as u8;
        let d: u16 = (word >> 16) as u16;
        if op == OP_NOP {
            Some(Insn::Nop)
        } else if op == OP_BREAK {
            Some(Insn::Break)
        } else if op == OP_MOVE {
            Some(Insn::Move { d: a, a: b })
        } else if op == OP_LOADK {
            Some(Insn::LoadK { d: a, k: d })
        } else if op == OP_LOADINT {
            Some(Insn::LoadInt { d: a, imm: d as i16 })
        } else if op == OP_LOADNIL {
            Some(Insn::LoadNil { d: a })
        } else if op == OP_LOADTRUE {
            Some(Insn::LoadTrue { d: a })
        } else if op == OP_LOADFALSE {
            Some(Insn::LoadFalse { d: a })
        } else if op == OP_LOADSELF {
            Some(Insn::LoadSelf { d: a })
        } else if op == OP_GETIVAR {
            Some(Insn::GetIvar { d: a, i: b })
        } else if op == OP_SETIVAR {
            Some(Insn::SetIvar { i: a, a: b })
        } else if op == OP_GETBOX {
            Some(Insn::GetBox { d: a, a: b })
        } else if op == OP_SETBOX {
            Some(Insn::SetBox { a, b })
        } else if op == OP_MKBOX {
            Some(Insn::MkBox { d: a, a: b })
        } else if op == OP_SEND {
            Some(Insn::Send { d: a, r: b, site: c })
        } else if op == OP_SENDSUPER {
            Some(Insn::SendSuper { d: a, r: b, site: c })
        } else if op == OP_RET {
            Some(Insn::Ret { a })
        } else if op == OP_RETSELF {
            Some(Insn::RetSelf)
        } else if op == OP_NLR {
            Some(Insn::Nlr { a })
        } else if op == OP_PRIM {
            Some(Insn::Prim { n: d })
        } else if op == OP_MKCLOSURE {
            Some(Insn::MkClosure { d: a, b: d })
        } else if op == OP_CAPTURE {
            Some(Insn::Capture { c: a, a: b })
        } else if op == OP_JUMP {
            Some(Insn::Jump { off: d as i16 })
        } else if op == OP_JUMPTRUE {
            Some(Insn::JumpTrue { a, off: d as i16 })
        } else if op == OP_JUMPFALSE {
            Some(Insn::JumpFalse { a, off: d as i16 })
        } else if op == OP_ADD {
            Some(Insn::Add { d: a, a: b, b: c })
        } else if op == OP_SUB {
            Some(Insn::Sub { d: a, a: b, b: c })
        } else if op == OP_MUL {
            Some(Insn::Mul { d: a, a: b, b: c })
        } else if op == OP_DIV {
            Some(Insn::Div { d: a, a: b, b: c })
        } else if op == OP_MOD {
            Some(Insn::Mod { d: a, a: b, b: c })
        } else if op == OP_LT {
            Some(Insn::Lt { d: a, a: b, b: c })
        } else if op == OP_GT {
            Some(Insn::Gt { d: a, a: b, b: c })
        } else if op == OP_LE {
            Some(Insn::Le { d: a, a: b, b: c })
        } else if op == OP_GE {
            Some(Insn::Ge { d: a, a: b, b: c })
        } else if op == OP_EQNUM {
            Some(Insn::EqNum { d: a, a: b, b: c })
        } else if op == OP_AT {
            Some(Insn::At { d: a, a: b, b: c })
        } else if op == OP_ATPUT {
            Some(Insn::AtPut { d: a, a: b, b: c })
        } else if op == OP_SIZE {
            Some(Insn::Size { d: a, a: b })
        } else if op == OP_CLASSOF {
            Some(Insn::ClassOf { d: a, a: b })
        } else if op == OP_NOT {
            Some(Insn::Not { d: a, a: b })
        } else if op == OP_IDEQ {
            Some(Insn::IdEq { d: a, a: b, b: c })
        } else {
            None
        }
    }

    /// The mnemonic and operands of the instruction.
    pub open spec fn listing(self) -> Seq<char> {
        match self {
            Insn::Nop => "NOP"@,
            Insn::Break => "BREAK"@,
            Insn::Move { d, a } => row2("MOVE"@, d as int, a as int),
            Insn::LoadK { d, k } => row2("LOADK"@, d as int, k as int),
            Insn::LoadInt { d, imm } => row2("LOADINT"@, d as int, imm as int),
            Insn::LoadNil { d } => row1("LOADNIL"@, d as int),
            Insn::LoadTrue { d } => row1("LOADTRUE"@, d as int),
            Insn::LoadFalse { d } => row1("LOADFALSE"@, d as int),
            Insn::LoadSelf { d } => row1("LOADSELF"@, d as int),
            Insn::GetIvar { d, i } => row2("GETIVAR"@, d as int, i as int),
            Insn::SetIvar { i, a } => row2("SETIVAR"@, i as int, a as int),
            Insn::GetBox { d, a } => row2("GETBOX"@, d as int, a as int),
            Insn::SetBox { a, b } => row2("SETBOX"@, a as int, b as int),
            Insn::MkBox { d, a } => row2("MKBOX"@, d as int, a as int),
            Insn::Send { d, r, site } => row3("SEND"@, d as int, r as int, site as int),
            Insn::SendSuper { d, r, site } => row3("SENDSUPER"@, d as int, r as int, site as int),
            Insn::Ret { a } => row1("RET"@, a as int),
            Insn::RetSelf => "RETSELF"@,
            Insn::Nlr { a } => row1("NLR"@, a as int),
            Insn::Prim { n } => row1("PRIM"@, n as int),
            Insn::MkClosure { d, b } => row2("MKCLOSURE"@, d as int, b as int),
            Insn::Capture { c, a } => row2("CAPTURE"@, c as int, a as int),
            Insn::Jump { off } => row1("JUMP"@, off as int),
            Insn::JumpTrue { a, off } => row2("JUMPTRUE"@, a as int, off as int),
            Insn::JumpFalse { a, off } => row2("JUMPFALSE"@, a as int, off as int),
            Insn::Add { d, a, b } => row3("ADD"@, d as int, a as int, b as int),
            Insn::Sub { d, a, b } => row3("SUB"@, d as int, a as int, b as int),
            Insn::Mul { d, a, b } => row3("MUL"@, d as int, a as int, b as int),
            Insn::Div { d, a, b } => row3("DIV"@, d as int, a as int, b as int),
            Insn::Mod { d, a, b } => row3("MOD"@, d as int, a as int, b as int),
            Insn::Lt { d, a, b } => row3("LT"@, d as int, a as int, b as int),
            Insn::Gt { d, a, b } => row3("GT"@, d as int, a as int, b as int),
            Insn::Le { d, a, b } => row3("LE"@, d as int, a as int, b as int),
            Insn::Ge { d, a, b } => row3("GE"@, d as int, a as int, b as int),
            Insn::EqNum { d, a, b } => row3("EQNUM"@, d as int, a as int, b as int),
            Insn::At { d, a, b } => row3("AT"@, d as int, a as int, b as int),
            Insn::AtPut { d, a, b } => row3("ATPUT"@, d as int, a as int, b as int),
            Insn::Size { d, a } => row2("SIZE"@, d as int, a as int),
            Insn::ClassOf { d, a } => row2("CLASSOF"@, d as int, a as int),
            Insn::Not { d, a } => row2("NOT"@, d as int, a as int),
            Insn::IdEq { d, a, b } => row3("IDEQ"@, d as int, a as int, b as int),
        }
    }

    /// The instruction as text.
    pub fn text(&self) -> (s: String)
        ensures
            s@ == self.listing(),
    {
        match *self {
            Insn::Nop => text("NOP"),
            Insn::Break => text("BREAK"),
            Insn::Move { d, a } => list2("MOVE", d as i64, a as i64),
            Insn::LoadK { d, k } => list2("LOADK", d as i64, k as i64),
            Insn::LoadInt { d, imm } => list2("LOADINT", d as i64, imm as i64),
            Insn::LoadNil { d } => list1("LOADNIL", d as i64),
            Insn::LoadTrue { d } => list1("LOADTRUE", d as i64),
            Insn::LoadFalse { d } => list1("LOADFALSE", d as i64),
            Insn::LoadSelf { d } => list1("LOADSELF", d as i64),
            Insn::GetIvar { d, i } => list2("GETIVAR", d as i64, i as i64),
            Insn::SetIvar { i, a } => list2("SETIVAR", i as i64, a as i64),
            Insn::GetBox { d, a } => list2("GETBOX", d as i64, a as i64),
            Insn::SetBox { a, b } => list2("SETBOX", a as i64, b as i64),
            Insn::MkBox { d, a } => list2("MKBOX", d as i64, a as i64),
            Insn::Send { d, r, site } => list3("SEND", d as i64, r as i64, site as i64),
            Insn::SendSuper { d, r, site } => list3("SENDSUPER", d as i64, r as i64, site as i64),
            Insn::Ret { a } => list1("RET", a as i64),
            Insn::RetSelf => text("RETSELF"),
            Insn::Nlr { a } => list1("NLR", a as i64),
            Insn::Prim { n } => list1("PRIM", n as i64),
            Insn::MkClosure { d, b } => list2("MKCLOSURE", d as i64, b as i64),
            Insn::Capture { c, a } => list2("CAPTURE", c as i64, a as i64),
            Insn::Jump { off } => list1("JUMP", off as i64),
            Insn::JumpTrue { a, off } => list2("JUMPTRUE", a as i64, off as i64),
            Insn::JumpFalse { a, off } => list2("JUMPFALSE", a as i64, off as i64),
            Insn::Add { d, a, b } => list3("ADD", d as i64, a as i64, b as i64),
            Insn::Sub { d, a, b } => list3("SUB", d as i64, a as i64, b as i64),
            Insn::Mul { d, a, b } => list3("MUL", d as i64, a as i64, b as i64),
            Insn::Div { d, a, b } => list3("DIV", d as i64, a as i64, b as i64),
            Insn::Mod { d, a, b } => list3("MOD", d as i64, a as i64, b as i64),
            Insn::Lt { d, a, b } => list3("LT", d as i64, a as i64, b as i64),
            Insn::Gt { d, a, b } => list3("GT", d as i64, a as i64, b as i64),
            Insn::Le { d, a, b } => list3("LE", d as i64, a as i64, b as i64),
            Insn::Ge { d, a, b } => list3("GE", d as i64, a as i64, b as i64),
            Insn::EqNum { d, a, b } => list3("EQNUM", d as i64, a as i64, b as i64),
            Insn::At { d, a, b } => list3("AT", d as i64, a as i64, b as i64),
            Insn::AtPut { d, a, b } => list3("ATPUT", d as i64, a as i64, b as i64),
            Insn::Size { d, a } => list2("SIZE", d as i64, a as i64),
            Insn::ClassOf { d, a } => list2("CLASSOF", d as i64, a as i64),
            Insn::Not { d, a } => list2("NOT", d as i64, a as i64),
            Insn::IdEq { d, a, b } => list3("IDEQ", d as i64, a as i64, b as i64),
        }
    }
}

/// A mnemonic with one operand.
pub open spec fn row1(name: Seq<char>, a: int) -> Seq<char> {
    name + " "@ + crate::text::dec_int(a)
}

/// A mnemonic with two operands.
pub open spec fn row2(name: Seq<char>, a: int, b: int) -> Seq<char> {
    row1(name, a) + ", "@ + crate::text::dec_int(b)
}

/// A mnemonic with three operands.
pub open spec fn row3(name: Seq<char>, a: int, b: int, c: int) -> Seq<char> {
    row2(name, a, b) + ", "@ + crate::text::dec_int(c)
}

fn list1(name: &str, a: i64) -> (s: String)
    ensures
        s@ == row1(name@, a as int),
{
    let mut s = text(name);
    s.append(" ");
    append_int(&mut s, a);
    s
}

fn list2(name: &str, a: i64, b: i64) -> (s: String)
    ensures
        s@ == row2(name@, a as int, b as int),
{
    let mut s = list1(name, a);
    s.append(", ");
    append_int(&mut s, b);
    s
}

fn list3(name: &str, a: i64, b: i64, c: i64) -> (s: String)
    ensures
        s@ == row3(name@, a as int, b as int, c as int),
{
    let mut s = list2(name, a, b);
    s.append(", ");
    append_int(&mut s, c);
    s
}

/// Decoding an encoded instruction gives the instruction back.
pub proof fn law_decode_encode(i: Insn)
    ensures
        Insn::of_word(i.word()) == Some(i),
{
    match i {
        Insn::Nop => lemma_abc(OP_NOP, 0, 0, 0),
        Insn::Break => lemma_abc(OP_BREAK, 0, 0, 0),
        Insn::Move { d, a } => lemma_abc(OP_MOVE, d, a, 0),
        Insn::LoadK { d, k } => lemma_ad(OP_LOADK, d, k, 0),
        Insn::LoadInt { d, imm } => lemma_ad(OP_LOADINT, d, imm as u16, imm),
        Insn::LoadNil { d } => lemma_ad(OP_LOADNIL, d, 0, 0),
        Insn::LoadTrue { d } => lemma_ad(OP_LOADTRUE, d, 0, 0),
        Insn::LoadFalse { d } => lemma_ad(OP_LOADFALSE, d, 0, 0),
        Insn::LoadSelf { d } => lemma_ad(OP_LOADSELF, d, 0, 0),
        Insn::GetIvar { d, i } => lemma_abc(OP_GETIVAR, d, i, 0),
        Insn::SetIvar { i, a } => lemma_abc(OP_SETIVAR, i, a, 0),
        Insn::GetBox { d, a } => lemma_abc(OP_GETBOX, d, a, 0),
        Insn::SetBox { a, b } => lemma_abc(OP_SETBOX, a, b, 0),
        Insn::MkBox { d, a } => lemma_abc(OP_MKBOX, d, a, 0),
        Insn::Send { d, r, site } => lemma_abc(OP_SEND, d, r, site),
        Insn::SendSuper { d, r, site } => lemma_abc(OP_SENDSUPER, d, r, site),
        Insn::Ret { a } => lemma_ad(OP_RET, a, 0, 0),
        Insn::RetSelf => lemma_ad(OP_RETSELF, 0, 0, 0),
        Insn::Nlr { a } => lemma_ad(OP_NLR, a, 0, 0),
        Insn::Prim { n } => lemma_ad(OP_PRIM, 0, n, 0),
        Insn::MkClosure { d, b } => lemma_ad(OP_MKCLOSURE, d, b, 0),
        Insn::Capture { c, a } => lemma_abc(OP_CAPTURE, c, a, 0),
        Insn::Jump { off } => lemma_ad(OP_JUMP, 0, off as u16, off),
        Insn::JumpTrue { a, off } => lemma_ad(OP_JUMPTRUE, a, off as u16, off),
        Insn::JumpFalse { a, off } => lemma_ad(OP_JUMPFALSE, a, off as u16, off),
        Insn::Add { d, a, b } => lemma_abc(OP_ADD, d, a, b),
        Insn::Sub { d, a, b } => lemma_abc(OP_SUB, d, a, b),
        Insn::Mul { d, a, b } => lemma_abc(OP_MUL, d, a, b),
        Insn::Div { d, a, b } => lemma_abc(OP_DIV, d, a, b),
        Insn::Mod { d, a, b } => lemma_abc(OP_MOD, d, a, b),
        Insn::Lt { d, a, b } => lemma_abc(OP_LT, d, a, b),
        Insn::Gt { d, a, b } => lemma_abc(OP_GT, d, a, b),
        Insn::Le { d, a, b } => lemma_abc(OP_LE, d, a, b),
        Insn::Ge { d, a, b } => lemma_abc(OP_GE, d, a, b),
        Insn::EqNum { d, a, b } => lemma_abc(OP_EQNUM, d, a, b),
        Insn::At { d, a, b } => lemma_abc(OP_AT, d, a, b),
        Insn::AtPut { d, a, b } => lemma_abc(OP_ATPUT, d, a, b),
        Insn::Size { d, a } => lemma_abc(OP_SIZE, d, a, 0),
        Insn::ClassOf { d, a } => lemma_abc(OP_CLASSOF, d, a, 0),
        Insn::Not { d, a } => lemma_abc(OP_NOT, d, a, 0),
        Insn::IdEq { d, a, b } => lemma_abc(OP_IDEQ, d, a, b),
    }
}

/// The words of a sequence of instructions.
pub open spec fn words_of(insns: Seq<Insn>) -> Seq<u32> {
    Seq::new(insns.len(), |i: int| insns[i].word())
}

/// The words of a sequence of instructions, in order.
pub fn assemble(insns: &[Insn]) -> (words: Vec<u32>)
    ensures
        words@ == words_of(insns@),
{
    let mut out: Vec<u32> = Vec::new();
    let mut i: usize = 0;
    while i < insns.len()
        invariant
            i <= insns@.len(),
            out@.len() == i,
            forall|j: int| 0 <= j < i ==> out@[j] == insns@[j].word(),
        decreases insns@.len() - i,
    {
        out.push(insns[i].encode());
        i = i + 1;
    }
    assert(out@ =~= words_of(insns@));
    out
}

/// The instructions of a sequence of words, all of them with known opcodes.
pub fn disassemble(words: &[u32]) -> (insns: Vec<Insn>)
    requires
        forall|i: int| 0 <= i < words@.len() ==> Insn::of_word(#[trigger] words@[i]) is Some,
    ensures
        insns@.len() == words@.len(),
        forall|i: int|
            0 <= i < words@.len() ==> Some(#[trigger] insns@[i]) == Insn::of_word(words@[i]),
{
    let mut out: Vec<Insn> = Vec::new();
    let mut i: usize = 0;
    while i < words.len()
        invariant
            i <= words@.len(),
            out@.len() == i,
            forall|j: int| 0 <= j < words@.len() ==> Insn::of_word(#[trigger] words@[j]) is Some,
            forall|j: int| 0 <= j < i ==> Some(#[trigger] out@[j]) == Insn::of_word(words@[j]),
        decreases words@.len() - i,
    {
        let w: u32 = words[i];
        assert(Insn::of_word(words@[i as int]) is Some);
        if let Some(insn) = Insn::decode(w) {
            out.push(insn);
        }
        i = i + 1;
    }
    out
}

/// Disassembling assembled code is possible and gives the instructions back.
pub proof fn law_disassemble_assemble(insns: Seq<Insn>)
    ensures
        forall|i: int|
            0 <= i < insns.len() ==> Insn::of_word(#[trigger] words_of(insns)[i]) == Some(insns[i]),
{
    assert forall|i: int| 0 <= i < insns.len() implies Insn::of_word(
        #[trigger] words_of(insns)[i],
    ) == Some(insns[i]) by {
        law_decode_encode(insns[i]);
    }
}

} // verus!
