//! Floating-point numbers of 64 bits as a processor computes with them: what their bits stand
//! for, and how results are rounded.
use vstd::arithmetic::power2::pow2;
use vstd::prelude::*;

verus! {

/// Whether the sign bit is set.
pub open spec fn is_negative(b: u64) -> bool {
    b >= 0x8000_0000_0000_0000
}

/// The exponent field.
pub open spec fn exponent(b: u64) -> int {
    b as int / 0x10_0000_0000_0000 % 0x800
}

/// The fraction field.
pub open spec fn fraction(b: u64) -> int {
    b as int % 0x10_0000_0000_0000
}

/// Whether the bits stand for no number.
pub open spec fn is_nan(b: u64) -> bool {
    exponent(b) == 0x7FF && fraction(b) != 0
}

/// Whether the bits stand for a number that is not infinite.
pub open spec fn is_finite(b: u64) -> bool {
    exponent(b) != 0x7FF
}

/// The number of smallest numbers in one.
#[verifier::opaque]
pub open spec fn one() -> int {
    pow2(1074) as int
}

/// How many of the smallest number the bits stand for, without the sign. Infinity counts as
/// what would follow the largest number.
#[verifier::opaque]
pub open spec fn units(b: u64) -> int {
    if exponent(b) == 0 {
        fraction(b)
    } else {
        (0x10_0000_0000_0000 + fraction(b)) * pow2((exponent(b) - 1) as nat)
    }
}

/// The number that the bits stand for, as so many of the smallest number; both zeros are 0.
pub open spec fn value(b: u64) -> int {
    if is_negative(b) {
        -units(b)
    } else {
        units(b)
    }
}

/// How far a number is from `n / d`, in parts of `d`.
pub open spec fn distance(b: u64, n: int, d: int) -> int {
    if value(b) * d >= n {
        value(b) * d - n
    } else {
        n - value(b) * d
    }
}

/// Whether no number is nearer to `n / d`; of two that are equally near, the one whose last
/// bit is clear is meant.
pub open spec fn is_nearest(b: u64, n: int, d: int) -> bool {
    &&& !is_nan(b)
    &&& forall|o: u64| !is_nan(o) ==> distance(b, n, d) <= #[trigger] distance(o, n, d)
    &&& forall|o: u64|
        !is_nan(o) && #[trigger] distance(o, n, d) == distance(b, n, d) && value(o) != value(b)
            ==> b % 2 == 0
}

/// The number nearest to `n / d` with a sign.
#[verifier::opaque]
pub open spec fn rounded(n: int, d: int, negative: bool) -> u64 {
    choose|b: u64| #[trigger] is_nearest(b, n, d) && is_negative(b) == negative
}

/// An operation on two numbers.
pub enum FloatOp {
    Plus,
    Minus,
    Times,
    Over,
}

/// What an operation gives of finite numbers; `None` of others, and of a division by zero.
pub open spec fn computed(op: FloatOp, a: u64, b: u64) -> Option<u64> {
    let x = value(a);
    let y = value(b);
    let differ = is_negative(a) != is_negative(b);
    if !is_finite(a) || !is_finite(b) {
        None
    } else {
        match op {
            FloatOp::Plus => Some(
                rounded(
                    x + y,
                    1,
                    if x + y != 0 {
                        x + y < 0
                    } else {
                        is_negative(a) && is_negative(b)
                    },
                ),
            ),
            FloatOp::Minus => Some(
                rounded(
                    x - y,
                    1,
                    if x - y != 0 {
                        x - y < 0
                    } else {
                        is_negative(a) && !is_negative(b)
                    },
                ),
            ),
            FloatOp::Times => Some(rounded(x * y, one(), differ)),
            FloatOp::Over => if y == 0 {
                None
            } else if y < 0 {
                Some(rounded(-x * one(), -y, differ))
            } else {
                Some(rounded(x * one(), y, differ))
            },
        }
    }
}

/// The number nearest to an integer.
pub open spec fn from_integer(v: int) -> u64 {
    rounded(v * one(), 1, v < 0)
}

/// The integer next to a finite number toward zero.
pub open spec fn whole_part(b: u64) -> int {
    if is_negative(b) {
        -(units(b) / one())
    } else {
        units(b) / one()
    }
}

} // verus!
