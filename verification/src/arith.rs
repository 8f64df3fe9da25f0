//! SmallInteger arithmetic.

use crate::value::{SMALLINT_MAX, SMALLINT_MIN};
use crate::treaty::{
    PRIM_INT_ADD, PRIM_INT_BIT_AND, PRIM_INT_BIT_OR, PRIM_INT_BIT_XOR, PRIM_INT_DIV, PRIM_INT_MOD,
    PRIM_INT_MUL, PRIM_INT_QUO, PRIM_INT_SUB,
};
use vstd::prelude::*;

verus! {

/// The quotient rounded towards minus infinity.
pub open spec fn floor_div(x: int, y: int) -> int {
    if y > 0 {
        x / y
    } else {
        (-x) / (-y)
    }
}

/// What the floored quotient leaves over; it has the divisor's sign.
pub open spec fn floor_mod(x: int, y: int) -> int {
    x - floor_div(x, y) * y
}

/// The quotient rounded towards zero.
pub open spec fn trunc_div(x: int, y: int) -> int {
    let ax = if x < 0 {
        -x
    } else {
        x
    };
    let ay = if y < 0 {
        -y
    } else {
        y
    };
    if (x < 0) == (y < 0) {
        ax / ay
    } else {
        -(ax / ay)
    }
}

/// Quotient and remainder of the absolute values give those of the numbers.
proof fn lemma_divmod(x: int, y: int, q: int, r: int)
    requires
        y != 0,
        q == (if x < 0 {
            -x
        } else {
            x
        }) / (if y < 0 {
            -y
        } else {
            y
        }),
        r == (if x < 0 {
            -x
        } else {
            x
        }) % (if y < 0 {
            -y
        } else {
            y
        }),
    ensures
        (x < 0) == (y < 0) ==> floor_div(x, y) == q && floor_mod(x, y) == (if y < 0 {
            -r
        } else {
            r
        }),
        (x < 0) != (y < 0) && r == 0 ==> floor_div(x, y) == -q && floor_mod(x, y) == 0,
        (x < 0) != (y < 0) && r != 0 ==> floor_div(x, y) == -q - 1 && floor_mod(x, y) == (if y < 0 {
            y + r
        } else {
            y - r
        }),
{
    let ax = if x < 0 {
        -x
    } else {
        x
    };
    let ay = if y < 0 {
        -y
    } else {
        y
    };
    vstd::arithmetic::div_mod::lemma_fundamental_div_mod(ax, ay);
    assert(ay * q == q * ay) by (nonlinear_arith);
    if (x < 0) == (y < 0) {
        if y < 0 {
            assert(q * y == -(q * ay)) by (nonlinear_arith)
                requires
                    ay == -y,
            ;
        }
    } else {
        let fq = if r == 0 {
            -q
        } else {
            -q - 1
        };
        let fr = if r == 0 {
            0
        } else {
            ay - r
        };
        assert(-ax == fq * ay + fr) by (nonlinear_arith)
            requires
                ax == q * ay + r,
                fq == (if r == 0 {
                    -q
                } else {
                    -q - 1
                }),
                fr == (if r == 0 {
                    0
                } else {
                    ay - r
                }),
        ;
        vstd::arithmetic::div_mod::lemma_fundamental_div_mod_converse(-ax, ay, fq, fr);
        if y < 0 {
            assert(fq * y == -(fq * ay)) by (nonlinear_arith)
                requires
                    ay == -y,
            ;
        }
    }
}

fn magnitude(x: i64) -> (a: u64)
    ensures
        a == (if x < 0 {
            -(x as int)
        } else {
            x as int
        }),
{
    if x >= 0 {
        x as u64
    } else if x == i64::MIN {
        9223372036854775808
    } else {
        (-x) as u64
    }
}

/// Floored division and modulo. The one quotient that does not fit, of the
/// smallest number by minus one, is left out.
pub fn floored_divmod(x: i64, y: i64) -> (r: (i64, i64))
    requires
        y != 0,
        !(x == i64::MIN && y == -1),
    ensures
        r.0 == floor_div(x as int, y as int),
        r.1 == floor_mod(x as int, y as int),
{
    let ax: u64 = magnitude(x);
    let ay: u64 = magnitude(y);
    let q: u64 = ax / ay;
    let m: u64 = ax % ay;
    proof {
        lemma_divmod(x as int, y as int, q as int, m as int);
        vstd::arithmetic::div_mod::lemma_div_is_ordered_by_denominator(ax as int, 1, ay as int);
        vstd::arithmetic::div_mod::lemma_div_basics(ax as int);
        if ay >= 2 {
            vstd::arithmetic::div_mod::lemma_div_is_ordered_by_denominator(ax as int, 2, ay as int);
        }
    }
    if (x < 0) == (y < 0) {
        if y < 0 {
            (q as i64, -(m as i64))
        } else {
            (q as i64, m as i64)
        }
    } else if m == 0 {
        (negated(q), 0)
    } else if y < 0 {
        (negated(q) - 1, y + m as i64)
    } else {
        (negated(q) - 1, y - m as i64)
    }
}

fn negated(q: u64) -> (n: i64)
    requires
        q <= 9223372036854775808,
    ensures
        n == -(q as int),
{
    if q == 9223372036854775808 {
        i64::MIN
    } else {
        -(q as i64)
    }
}

/// The quotient rounded towards zero.
pub(crate) fn truncated_div(x: i64, y: i64) -> (q: i64)
    requires
        y != 0,
        !(x == i64::MIN && y == -1),
    ensures
        q == trunc_div(x as int, y as int),
{
    let ax: u64 = magnitude(x);
    let ay: u64 = magnitude(y);
    let q: u64 = ax / ay;
    proof {
        vstd::arithmetic::div_mod::lemma_div_is_ordered_by_denominator(ax as int, 1, ay as int);
        vstd::arithmetic::div_mod::lemma_div_basics(ax as int);
        if ay >= 2 {
            vstd::arithmetic::div_mod::lemma_div_is_ordered_by_denominator(ax as int, 2, ay as int);
        }
    }
    if (x < 0) == (y < 0) {
        q as i64
    } else {
        negated(q)
    }
}

/// A floored quotient and remainder give the dividend back, and the
/// remainder lies between zero and the divisor.
pub proof fn law_floored_divmod(x: int, y: int)
    requires
        y != 0,
    ensures
        floor_div(x, y) * y + floor_mod(x, y) == x,
        y > 0 ==> 0 <= floor_mod(x, y) < y,
        y < 0 ==> y < floor_mod(x, y) <= 0,
{
    let ax = if x < 0 {
        -x
    } else {
        x
    };
    let ay = if y < 0 {
        -y
    } else {
        y
    };
    lemma_divmod(x, y, ax / ay, ax % ay);
    vstd::arithmetic::div_mod::lemma_mod_bound(ax, ay);
}

/// A result that is a SmallInteger.
pub open spec fn small(n: int) -> Option<i64> {
    if SMALLINT_MIN <= n <= SMALLINT_MAX {
        Some(n as i64)
    } else {
        None
    }
}

/// A left shift that loses no bits.
pub open spec fn shifted_left(a: i64, b: i64) -> Option<i64> {
    if b >= 63 {
        None
    } else {
        let s = a << (b as u32);
        if s >> (b as u32) == a {
            small(s as int)
        } else {
            None
        }
    }
}

/// The arithmetic and bit operations on SmallIntegers by primitive number;
/// `None` where the result is none.
pub open spec fn int_op(n: u16, a: i64, b: i64) -> Option<i64> {
    if n == PRIM_INT_ADD {
        small(a + b)
    } else if n == PRIM_INT_SUB {
        small(a - b)
    } else if n == PRIM_INT_MUL {
        small(a * b)
    } else if n == PRIM_INT_DIV {
        if b == 0 {
            None
        } else {
            small(floor_div(a as int, b as int))
        }
    } else if n == PRIM_INT_MOD {
        if b == 0 {
            None
        } else {
            small(floor_mod(a as int, b as int))
        }
    } else if n == PRIM_INT_QUO {
        if b == 0 {
            None
        } else {
            small(trunc_div(a as int, b as int))
        }
    } else if n == PRIM_INT_BIT_AND {
        small((a & b) as int)
    } else if n == PRIM_INT_BIT_OR {
        small((a | b) as int)
    } else if n == PRIM_INT_BIT_XOR {
        small((a ^ b) as int)
    } else if b >= 0 {
        shifted_left(a, b)
    } else if b <= -63 {
        Some(
            if a < 0 {
                -1i64
            } else {
                0i64
            },
        )
    } else {
        small((a >> ((-b) as u32)) as int)
    }
}

fn in_range(n: i64) -> (r: Option<i64>)
    ensures
        r == small(n as int),
{
    if SMALLINT_MIN <= n && n <= SMALLINT_MAX {
        Some(n)
    } else {
        None
    }
}

/// An arithmetic or bit operation on SmallIntegers.
pub(crate) fn int_binary(n: u16, a: i64, b: i64) -> (r: Option<i64>)
    requires
        SMALLINT_MIN <= a <= SMALLINT_MAX,
        SMALLINT_MIN <= b <= SMALLINT_MAX,
    ensures
        r == int_op(n, a, b),
{
    if n == PRIM_INT_ADD {
        in_range(a + b)
    } else if n == PRIM_INT_SUB {
        in_range(a - b)
    } else if n == PRIM_INT_MUL {
        match a.checked_mul(b) {
            Some(p) => in_range(p),
            None => None,
        }
    } else if n == PRIM_INT_DIV {
        if b == 0 {
            None
        } else {
            in_range(floored_divmod(a, b).0)
        }
    } else if n == PRIM_INT_MOD {
        if b == 0 {
            None
        } else {
            in_range(floored_divmod(a, b).1)
        }
    } else if n == PRIM_INT_QUO {
        if b == 0 {
            None
        } else {
            in_range(truncated_div(a, b))
        }
    } else if n == PRIM_INT_BIT_AND {
        in_range(a & b)
    } else if n == PRIM_INT_BIT_OR {
        in_range(a | b)
    } else if n == PRIM_INT_BIT_XOR {
        in_range(a ^ b)
    } else if b >= 0 {
        if b >= 63 {
            None
        } else {
            let s: i64 = a << (b as u32);
            if s >> (b as u32) == a {
                in_range(s)
            } else {
                None
            }
        }
    } else if b <= -63 {
        Some(
            if a < 0 {
                -1
            } else {
                0
            },
        )
    } else {
        in_range(a >> ((-b) as u32))
    }
}

} // verus!
