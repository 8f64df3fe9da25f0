//! Tagged 64-bit values.
//!
//! `...1` is a SmallInteger (the value is the word shifted right by one,
//! arithmetically); `...000` is an object pointer. Tag `010` is reserved for
//! immediate floats and never produced. A `Value` is exactly one word.

use crate::treaty::{
    TAG_INT_BIT, TAG_PTR, TAG_PTR_MASK,
};
use vstd::prelude::*;

verus! {

/// One tagged machine word.
#[derive(Clone, Copy, PartialEq, Eq, Structural, Hash, Debug)]
pub struct Value(pub u64);

/// Largest SmallInteger, 2^62 - 1.
pub const SMALLINT_MAX: i64 = 4611686018427387903;

/// Smallest SmallInteger, -2^62.
pub const SMALLINT_MIN: i64 = -4611686018427387904;

/// The tagged word of an integer: the low 63 bits shifted up, tag bit set.
pub open spec fn tag(n: i64) -> Value {
    Value(((n as u64) << 1u64) | 1u64)
}

impl Value {
    /// The integer a word denotes when read as a SmallInteger.
    pub open spec fn int_value(self) -> i64 {
        (self.0 as i64) >> 1i64
    }

    /// The word carries the integer tag.
    pub open spec fn tagged_int(self) -> bool {
        self.0 & 1 == 1
    }

    /// The word carries the pointer tag.
    pub open spec fn tagged_ptr(self) -> bool {
        self.0 & 7 == 0
    }

    /// The address a word denotes when read as a pointer.
    pub open spec fn addr(self) -> int {
        self.0 as int
    }
}

/// Every fact about the tag bits that the rest of the machine uses.
pub proof fn lemma_tag_bits(n: i64)
    ensures
        tag(n).tagged_int(),
        !tag(n).tagged_ptr(),
        SMALLINT_MIN <= n <= SMALLINT_MAX ==> tag(n).int_value() == n,
{
    let w = ((n as u64) << 1u64) | 1u64;
    assert(w & 1 == 1 && w & 7 != 0 && (-4611686018427387904i64 <= n <= 4611686018427387903i64
        ==> (w as i64) >> 1i64 == n)) by (bit_vector)
        requires
            w == ((n as u64) << 1u64) | 1u64,
    ;
}

/// Reading any word as an integer stays inside the SmallInteger range, a
/// word is never both an integer and a pointer, and pointers are 8-aligned.
pub proof fn lemma_untag_bits(v: Value)
    ensures
        SMALLINT_MIN <= v.int_value() <= SMALLINT_MAX,
        v.tagged_int() ==> !v.tagged_ptr(),
        v.tagged_ptr() <==> v.0 % 8 == 0,
        v.tagged_int() ==> tag(v.int_value()) == v,
{
    let w = v.0;
    assert(-4611686018427387904i64 <= (w as i64) >> 1i64 <= 4611686018427387903i64
        && (w & 1 == 1 ==> w & 7 != 0) && ((w & 7 == 0) == (w % 8 == 0)) && (w & 1 == 1 ==> (((((
    w as i64) >> 1i64) as u64) << 1u64) | 1u64) == w)) by (bit_vector);
}

impl Value {
    pub const SMALLINT_MAX: i64 = 4611686018427387903;

    pub const SMALLINT_MIN: i64 = -4611686018427387904;

    /// The word itself.
    pub fn raw(self) -> (w: u64)
        ensures
            w == self.0,
    {
        self.0
    }

    /// A value with the given word.
    pub fn from_raw(w: u64) -> (v: Value)
        ensures
            v == Value(w),
    {
        Value(w)
    }

    /// The SmallInteger `n`, which must lie in the 63-bit range.
    pub fn from_int(n: i64) -> (v: Value)
        requires
            SMALLINT_MIN <= n <= SMALLINT_MAX,
        ensures
            v == tag(n),
            v.tagged_int(),
            v.int_value() == n,
    {
        proof {
            lemma_tag_bits(n);
        }
        Value(((n as u64) << 1) | TAG_INT_BIT)
    }

    /// The SmallInteger `n`, or `None` outside the 63-bit range.
    pub fn try_from_int(n: i64) -> (r: Option<Value>)
        ensures
            r == (if SMALLINT_MIN <= n <= SMALLINT_MAX {
                Some(tag(n))
            } else {
                None
            }),
            r is Some ==> r->0.tagged_int() && r->0.int_value() == n,
    {
        if n >= SMALLINT_MIN && n <= SMALLINT_MAX {
            Some(Value::from_int(n))
        } else {
            None
        }
    }

    /// The integer of a SmallInteger: the word shifted right arithmetically.
    pub fn as_int(self) -> (n: i64)
        ensures
            n == self.int_value(),
            SMALLINT_MIN <= n <= SMALLINT_MAX,
            self.tagged_int() ==> tag(n) == self,
    {
        proof {
            lemma_untag_bits(self);
        }
        (self.0 as i64) >> 1
    }

    /// True for SmallIntegers.
    pub fn is_int(self) -> (b: bool)
        ensures
            b == self.tagged_int(),
    {
        self.0 & TAG_INT_BIT == TAG_INT_BIT
    }

    /// True for object pointers.
    pub fn is_ptr(self) -> (b: bool)
        ensures
            b == self.tagged_ptr(),
    {
        self.0 & TAG_PTR_MASK == TAG_PTR
    }

    /// The pointer to an object header, whose address is 8-byte aligned.
    pub fn from_ptr(addr: usize) -> (v: Value)
        requires
            addr % 8 == 0,
        ensures
            v == Value(addr as u64),
            v.tagged_ptr(),
            v.addr() == addr,
    {
        proof {
            lemma_untag_bits(Value(addr as u64));
        }
        Value(addr as u64)
    }

    /// The address of an object pointer.
    pub fn as_ptr(self) -> (addr: usize)
        requires
            self.tagged_ptr(),
            self.0 <= usize::MAX,
        ensures
            addr == self.addr(),
            addr % 8 == 0,
    {
        proof {
            lemma_untag_bits(self);
        }
        self.0 as usize
    }
}

/// The value of the all-zero word.
impl Default for Value {
    fn default() -> (v: Value)
        ensures
            v == Value(0),
    {
        Value(0)
    }
}

/// How a value is shown: `int(5)` or `ptr(0x10)`.
pub open spec fn value_text(v: Value) -> Seq<char> {
    if v.tagged_int() {
        "int("@ + crate::text::dec_int(v.int_value() as int) + ")"@
    } else {
        "ptr(0x"@ + crate::text::hex(v.0 as int) + ")"@
    }
}

impl Value {
    /// How the value is shown in messages.
    pub fn debug_text(self) -> (s: String)
        ensures
            s@ == value_text(self),
    {
        if self.is_int() {
            let mut s = crate::text::text("int(");
            crate::text::append_int(&mut s, self.as_int());
            s.append(")");
            s
        } else {
            let mut s = crate::text::text("ptr(0x");
            crate::text::append_hex(&mut s, self.0);
            s.append(")");
            s
        }
    }
}

} // verus!
