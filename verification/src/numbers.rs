//! SmallInteger arithmetic: what the primitives and the instructions answer.

use crate::arith::{floor_div, floor_mod, law_floored_divmod, trunc_div};
use crate::interp::Fields;
use crate::machine::Machine;
use crate::requests::Outcome;
use crate::treaty::{
    OP_ADD, OP_DIV, OP_EQNUM, OP_GE, OP_GT, OP_LE, OP_LT, OP_MOD, OP_MUL, OP_SUB, PRIM_INT_ADD,
    PRIM_INT_BIT_AND, PRIM_INT_BIT_OR, PRIM_INT_BIT_SHIFT, PRIM_INT_BIT_XOR, PRIM_INT_DIV,
    PRIM_INT_EQ, PRIM_INT_GE, PRIM_INT_GT, PRIM_INT_LE, PRIM_INT_LT, PRIM_INT_MOD, PRIM_INT_MUL,
    PRIM_INT_QUO, PRIM_INT_SUB, SPECIAL_FALSE, SPECIAL_TRUE,
};
use crate::value::{lemma_tag_bits, lemma_untag_bits, Value, SMALLINT_MAX, SMALLINT_MIN};
use crate::vm::Fault;
use vstd::prelude::*;

verus! {

/// A primitive on two integers answers an integer, where it is a
/// SmallInteger, and fails where it is not; nothing else changes.
pub open spec fn answers(m: Machine, res: Result<(Machine, Outcome), Fault>, n: int) -> bool {
    if SMALLINT_MIN <= n <= SMALLINT_MAX {
        res matches Ok((w, o)) && w == m && (o matches Outcome::Value(v) && v.tagged_int()
            && v.int_value() == n)
    } else {
        res matches Ok((w, o)) && w == m && o is Fail
    }
}

/// The receiver and the argument of a primitive are integers.
pub open spec fn integers(m: Machine, r: u8, a: int, b: int) -> bool {
    &&& m.get(r as int).tagged_int()
    &&& m.get(r + 1).tagged_int()
    &&& m.get(r as int).int_value() == a
    &&& m.get(r + 1).int_value() == b
}

proof fn lemma_int_prim(m: Machine, n: u16, r: u8, argc: int, dest: u8)
    ensures
        n == PRIM_INT_ADD || n == PRIM_INT_SUB || n == PRIM_INT_MUL || n == PRIM_INT_DIV || n
            == PRIM_INT_MOD || n == PRIM_INT_QUO || n == PRIM_INT_BIT_AND || n == PRIM_INT_BIT_OR
            || n == PRIM_INT_BIT_XOR || n == PRIM_INT_BIT_SHIFT ==> m.dispatched_primitive(
            n,
            r,
            argc,
            dest,
        ) == m.prim_int(n, r as int),
        n == PRIM_INT_LT || n == PRIM_INT_GT || n == PRIM_INT_LE || n == PRIM_INT_GE || n
            == PRIM_INT_EQ ==> m.dispatched_primitive(n, r, argc, dest) == m.prim_int_compare(
            n,
            r as int,
        ),
{
    reveal(Machine::dispatched_primitive);
    reveal(Machine::object_primitive);
}

/// Sums, differences and products are exact, or fail where they are no
/// SmallIntegers.
pub proof fn law_sums_and_products(m: Machine, r: u8, argc: int, dest: u8, a: int, b: int)
    requires
        integers(m, r, a, b),
    ensures
        answers(m, m.dispatched_primitive(PRIM_INT_ADD, r, argc, dest), a + b),
        answers(m, m.dispatched_primitive(PRIM_INT_SUB, r, argc, dest), a - b),
        answers(m, m.dispatched_primitive(PRIM_INT_MUL, r, argc, dest), a * b),
{
    reveal(Machine::prim_int);
    lemma_int_prim(m, PRIM_INT_ADD, r, argc, dest);
    lemma_int_prim(m, PRIM_INT_SUB, r, argc, dest);
    lemma_int_prim(m, PRIM_INT_MUL, r, argc, dest);
    if SMALLINT_MIN <= a + b <= SMALLINT_MAX {
        lemma_tag_bits((a + b) as i64);
    }
    if SMALLINT_MIN <= a - b <= SMALLINT_MAX {
        lemma_tag_bits((a - b) as i64);
    }
    if SMALLINT_MIN <= a * b <= SMALLINT_MAX {
        lemma_tag_bits((a * b) as i64);
    }
}

/// A quotient and a remainder that belong together.
pub open spec fn divides(a: int, b: int, q: int, rem: int) -> bool {
    q * b + rem == a
}

/// `//` and `\\\\` belong together: the remainder lies between zero and the
/// divisor, so the quotient is rounded down. By zero both fail, and the
/// quotient fails where it is no SmallInteger.
pub proof fn law_floored_quotients(m: Machine, r: u8, argc: int, dest: u8, a: int, b: int)
    requires
        integers(m, r, a, b),
    ensures
        b == 0 ==> (m.dispatched_primitive(PRIM_INT_DIV, r, argc, dest) matches Ok((w, o)) && w == m
            && o is Fail),
        b == 0 ==> (m.dispatched_primitive(PRIM_INT_MOD, r, argc, dest) matches Ok((w, o)) && w == m
            && o is Fail),
        b != 0 ==> exists|q: int, rem: int| #[trigger]
            divides(a, b, q, rem) && (b > 0 ==> 0 <= rem < b) && (b < 0 ==> b < rem <= 0)
                && answers(m, m.dispatched_primitive(PRIM_INT_DIV, r, argc, dest), q) && answers(
                m,
                m.dispatched_primitive(PRIM_INT_MOD, r, argc, dest),
                rem,
            ),
{
    reveal(Machine::prim_int);
    lemma_int_prim(m, PRIM_INT_DIV, r, argc, dest);
    lemma_int_prim(m, PRIM_INT_MOD, r, argc, dest);
    if b != 0 {
        law_floored_divmod(a, b);
        let q = floor_div(a, b);
        let rem = floor_mod(a, b);
        assert(divides(a, b, q, rem));
        lemma_tag_bits(q as i64);
        lemma_tag_bits(rem as i64);
    }
}

/// `quo:` is rounded towards zero: what it leaves over is smaller than the
/// divisor and has the sign of the dividend. By zero it fails.
pub proof fn law_truncated_quotients(m: Machine, r: u8, argc: int, dest: u8, a: int, b: int)
    requires
        integers(m, r, a, b),
    ensures
        b == 0 ==> (m.dispatched_primitive(PRIM_INT_QUO, r, argc, dest) matches Ok((w, o)) && w == m
            && o is Fail),
        b != 0 ==> exists|q: int, rem: int| #[trigger]
            divides(a, b, q, rem) && (a >= 0 ==> 0 <= rem) && (a <= 0 ==> rem <= 0) && -(if b < 0 {
                -b
            } else {
                b
            }) < rem < (if b < 0 {
                -b
            } else {
                b
            }) && answers(m, m.dispatched_primitive(PRIM_INT_QUO, r, argc, dest), q),
{
    reveal(Machine::prim_int);
    lemma_int_prim(m, PRIM_INT_QUO, r, argc, dest);
    if b != 0 {
        let q = trunc_div(a, b);
        let rem = a - q * b;
        let aa = if a < 0 {
            -a
        } else {
            a
        };
        let ab = if b < 0 {
            -b
        } else {
            b
        };
        vstd::arithmetic::div_mod::lemma_fundamental_div_mod(aa, ab);
        vstd::arithmetic::div_mod::lemma_mod_bound(aa, ab);
        let p = aa / ab;
        assert(q * b == (if a < 0 {
            -(ab * p)
        } else {
            ab * p
        })) by (nonlinear_arith)
            requires
                q == (if (a < 0) == (b < 0) {
                    p
                } else {
                    -p
                }),
                ab == (if b < 0 {
                    -b
                } else {
                    b
                }),
        ;
        assert(divides(a, b, q, rem));
        lemma_tag_bits(q as i64);
    }
}

/// Bit operations answer the bits of both numbers combined.
pub proof fn law_bit_operations(m: Machine, r: u8, argc: int, dest: u8, a: i64, b: i64)
    requires
        integers(m, r, a as int, b as int),
    ensures
        answers(m, m.dispatched_primitive(PRIM_INT_BIT_AND, r, argc, dest), (a & b) as int),
        answers(m, m.dispatched_primitive(PRIM_INT_BIT_OR, r, argc, dest), (a | b) as int),
        answers(m, m.dispatched_primitive(PRIM_INT_BIT_XOR, r, argc, dest), (a ^ b) as int),
{
    reveal(Machine::prim_int);
    lemma_int_prim(m, PRIM_INT_BIT_AND, r, argc, dest);
    lemma_int_prim(m, PRIM_INT_BIT_OR, r, argc, dest);
    lemma_int_prim(m, PRIM_INT_BIT_XOR, r, argc, dest);
    lemma_tag_bits(a & b);
    lemma_tag_bits(a | b);
    lemma_tag_bits(a ^ b);
}

/// A shift to the left loses no bit, or fails; a shift to the right drops
/// bits and keeps the sign.
pub proof fn law_shifts(m: Machine, r: u8, argc: int, dest: u8, a: i64, b: i64)
    requires
        integers(m, r, a as int, b as int),
    ensures
        0 <= b < 63 && (a << (b as u32)) >> (b as u32) == a ==> answers(
            m,
            m.dispatched_primitive(PRIM_INT_BIT_SHIFT, r, argc, dest),
            (a << (b as u32)) as int,
        ),
        b >= 63 || (b >= 0 && (a << (b as u32)) >> (b as u32) != a) ==> (m.dispatched_primitive(
            PRIM_INT_BIT_SHIFT,
            r,
            argc,
            dest,
        ) matches Ok((w, o)) && w == m && o is Fail),
        -63 < b < 0 ==> answers(
            m,
            m.dispatched_primitive(PRIM_INT_BIT_SHIFT, r, argc, dest),
            (a >> ((-b) as u32)) as int,
        ),
        b <= -63 ==> answers(
            m,
            m.dispatched_primitive(PRIM_INT_BIT_SHIFT, r, argc, dest),
            if a < 0 {
                -1
            } else {
                0
            },
        ),
{
    reveal(Machine::prim_int);
    lemma_int_prim(m, PRIM_INT_BIT_SHIFT, r, argc, dest);
    if 0 <= b < 63 {
        lemma_tag_bits(a << (b as u32));
    }
    if -63 < b < 0 {
        lemma_tag_bits(a >> ((-b) as u32));
    }
    lemma_tag_bits(-1i64);
    lemma_tag_bits(0);
}

/// A number shifted to the left and back is the number again.
pub proof fn law_shift_and_back(a: i64, b: i64)
    requires
        SMALLINT_MIN <= a <= SMALLINT_MAX,
        0 < b < 63,
    ensures
        crate::arith::int_op(PRIM_INT_BIT_SHIFT, a, b) matches Some(s) ==> crate::arith::int_op(
            PRIM_INT_BIT_SHIFT,
            s,
            (-b) as i64,
        ) == Some(a),
{
}

/// Comparisons answer how the numbers stand.
pub proof fn law_comparisons(m: Machine, r: u8, argc: int, dest: u8, a: int, b: int)
    requires
        integers(m, r, a, b),
    ensures
        ({
            let said = |n: u16, t: bool|
                m.dispatched_primitive(n, r, argc, dest) == Ok::<(Machine, Outcome), Fault>(
                    (
                        m,
                        Outcome::Value(
                            if t {
                                m.vm.specials[SPECIAL_TRUE as int]
                            } else {
                                m.vm.specials[SPECIAL_FALSE as int]
                            },
                        ),
                    ),
                );
            &&& said(PRIM_INT_LT, a < b)
            &&& said(PRIM_INT_GT, a > b)
            &&& said(PRIM_INT_LE, a <= b)
            &&& said(PRIM_INT_GE, a >= b)
            &&& said(PRIM_INT_EQ, a == b)
        }),
{
    reveal(Machine::prim_int_compare);
    lemma_int_prim(m, PRIM_INT_LT, r, argc, dest);
    lemma_int_prim(m, PRIM_INT_GT, r, argc, dest);
    lemma_int_prim(m, PRIM_INT_LE, r, argc, dest);
    lemma_int_prim(m, PRIM_INT_GE, r, argc, dest);
    lemma_int_prim(m, PRIM_INT_EQ, r, argc, dest);
}

/// An arithmetic primitive on what is no integer fails and changes nothing.
pub proof fn law_other_operands_fail(m: Machine, n: u16, r: u8, argc: int, dest: u8)
    requires
        !m.get(r as int).tagged_int() || !m.get(r + 1).tagged_int(),
        PRIM_INT_ADD <= n <= PRIM_INT_BIT_SHIFT,
    ensures
        m.dispatched_primitive(n, r, argc, dest) matches Ok((w, o)) && w == m && o is Fail,
{
    reveal(Machine::dispatched_primitive);
    reveal(Machine::object_primitive);
    reveal(Machine::prim_int);
    reveal(Machine::prim_int_compare);
}

// ---------------------------------------------------------------------------
// In line
// ---------------------------------------------------------------------------
/// An instruction left an integer in a slot, and nothing else changed.
pub open spec fn left(m: Machine, res: Result<Machine, Fault>, a: u8, n: int) -> bool {
    exists|v: Value|
        v.tagged_int() && v.int_value() == n && res == Ok::<Machine, Fault>(
            #[trigger] m.put(a as int, v),
        )
}

/// The operands of an instruction are integers.
pub open spec fn operands(m: Machine, f: Fields, a: int, b: int) -> bool {
    &&& m.get(f.b as int).tagged_int()
    &&& m.get(f.c as int).tagged_int()
    &&& m.get(f.b as int).int_value() == a
    &&& m.get(f.c as int).int_value() == b
}

/// Arithmetic in line leaves what the primitives answer in the destination.
pub proof fn law_arithmetic_in_line(m: Machine, f: Fields, fresh: bool, a: int, b: int)
    requires
        operands(m, f, a, b),
    ensures
        f.op == OP_ADD && SMALLINT_MIN <= a + b <= SMALLINT_MAX ==> left(
            m,
            m.executed(f, fresh),
            f.a,
            a + b,
        ),
        f.op == OP_SUB && SMALLINT_MIN <= a - b <= SMALLINT_MAX ==> left(
            m,
            m.executed(f, fresh),
            f.a,
            a - b,
        ),
        f.op == OP_MUL && SMALLINT_MIN <= a * b <= SMALLINT_MAX ==> left(
            m,
            m.executed(f, fresh),
            f.a,
            a * b,
        ),
        f.op == OP_DIV && b != 0 && !(a == SMALLINT_MIN && b == -1) ==> exists|q: int, rem: int|
            #[trigger] divides(a, b, q, rem) && (b > 0 ==> 0 <= rem < b) && (b < 0 ==> b < rem <= 0)
                && left(m, m.executed(f, fresh), f.a, q),
        f.op == OP_MOD && b != 0 ==> exists|q: int, rem: int| #[trigger]
            divides(a, b, q, rem) && (b > 0 ==> 0 <= rem < b) && (b < 0 ==> b < rem <= 0) && left(
                m,
                m.executed(f, fresh),
                f.a,
                rem,
            ),
{
    reveal(Machine::executed);
    reveal(Machine::computed);
    lemma_untag_bits(m.get(f.b as int));
    lemma_untag_bits(m.get(f.c as int));
    if f.op == OP_ADD && SMALLINT_MIN <= a + b <= SMALLINT_MAX {
        lemma_left(m, f.a, (a + b) as i64);
    }
    if f.op == OP_SUB && SMALLINT_MIN <= a - b <= SMALLINT_MAX {
        lemma_left(m, f.a, (a - b) as i64);
    }
    if f.op == OP_MUL && SMALLINT_MIN <= a * b <= SMALLINT_MAX {
        lemma_left(m, f.a, (a * b) as i64);
    }
    if b != 0 {
        law_floored_divmod(a, b);
        let q = floor_div(a, b);
        let rem = floor_mod(a, b);
        assert(divides(a, b, q, rem));
        lemma_quotient_fits(a, b);
        lemma_left(m, f.a, rem as i64);
        if !(a == SMALLINT_MIN && b == -1) {
            lemma_left(m, f.a, q as i64);
        }
    }
}

proof fn lemma_left(m: Machine, a: u8, n: i64)
    requires
        SMALLINT_MIN <= n <= SMALLINT_MAX,
    ensures
        left(m, Ok::<Machine, Fault>(m.put(a as int, crate::value::tag(n))), a, n as int),
{
    lemma_tag_bits(n);
}

/// A quotient of SmallIntegers is one, but for that of the smallest by minus
/// one.
proof fn lemma_quotient_fits(a: int, b: int)
    requires
        SMALLINT_MIN <= a <= SMALLINT_MAX,
        SMALLINT_MIN <= b <= SMALLINT_MAX,
        b != 0,
    ensures
        !(a == SMALLINT_MIN && b == -1) ==> SMALLINT_MIN <= floor_div(a, b) <= SMALLINT_MAX,
        SMALLINT_MIN <= floor_mod(a, b) <= SMALLINT_MAX,
{
    law_floored_divmod(a, b);
    let q = floor_div(a, b);
    let rem = floor_mod(a, b);
    if !(a == SMALLINT_MIN && b == -1) {
        assert(SMALLINT_MIN <= q <= SMALLINT_MAX) by (nonlinear_arith)
            requires
                q * b + rem == a,
                b > 0 ==> 0 <= rem < b,
                b < 0 ==> b < rem <= 0,
                b != 0,
                SMALLINT_MIN <= a <= SMALLINT_MAX,
                SMALLINT_MIN == -4611686018427387904,
                SMALLINT_MAX == 4611686018427387903,
                !(a == SMALLINT_MIN && b == -1),
        ;
    }
}

/// Comparisons in line leave true or false.
pub proof fn law_comparisons_in_line(m: Machine, f: Fields, fresh: bool, a: int, b: int)
    requires
        operands(m, f, a, b),
        OP_LT <= f.op <= OP_EQNUM,
    ensures
        ({
            let t = if f.op == OP_LT {
                a < b
            } else if f.op == OP_GT {
                a > b
            } else if f.op == OP_LE {
                a <= b
            } else if f.op == OP_GE {
                a >= b
            } else {
                a == b
            };
            m.executed(f, fresh) == Ok::<Machine, Fault>(
                m.put(
                    f.a as int,
                    if t {
                        m.vm.specials[SPECIAL_TRUE as int]
                    } else {
                        m.vm.specials[SPECIAL_FALSE as int]
                    },
                ),
            )
        }),
{
    reveal(Machine::executed);
    reveal(Machine::compared);
}

} // verus!
