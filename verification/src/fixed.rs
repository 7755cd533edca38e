//! Fixed-point scaling through `sp_arithmetic`.
//!
//! The congestion multiplier and the fractional part of a polynomial
//! coefficient are fixed-point numbers: a raw integer over a fixed
//! denominator (a billion for coefficient fractions, a quintillion for the
//! multiplier).  The scaling products themselves are computed by
//! `sp_arithmetic`; the contracts here state the exact rounding that its
//! code performs.

use vstd::prelude::*;
use crate::arith::{cap_u128, floor_zero};
use sp_arithmetic::FixedPointNumber;

verus! {

/// `x / d`, rounded to the nearest integer; an exact half rounds down.
pub open spec fn round_half_down_div(x: int, d: int) -> int {
    x / d + if x % d > d / 2 {
        1int
    } else {
        0int
    }
}

/// A `parts`-billionths share of `b`, rounded to nearest (half down).
pub open spec fn perbill_mul_spec(parts: int, b: int) -> int {
    round_half_down_div(b * parts, 1_000_000_000)
}

/// Relies on `sp_arithmetic::Perbill`: `from_parts` stores `parts` (already
/// at most one billion here), and `Perbill * u128` multiplies exactly and
/// rounds the quotient to the nearest integer, half down, never
/// overflowing because the result is at most `b`.
#[verifier::external_body]
pub(crate) fn perbill_mul(parts: u32, b: u128) -> (r: u128)
    requires
        parts <= 1_000_000_000,
    ensures
        r == perbill_mul_spec(parts as int, b as int),
{
    sp_arithmetic::Perbill::from_parts(parts) * b
}

/// The value `n + n * m` where `m` is a signed fixed-point scalar with
/// denominator `10^18` (the raw representation of
/// `sp_arithmetic::FixedI128`), saturating at the `u128` bounds.  The
/// product truncates toward zero; the magnitude of the most negative
/// scalar clamps at `i128::MAX`.
pub open spec fn current_mul_acc_spec(m: int, n: int) -> int {
    if m >= 0 {
        cap_u128(n + (m * n) / 1_000_000_000_000_000_000)
    } else {
        let a = if m == i128::MIN {
            i128::MAX as int
        } else {
            -m
        };
        floor_zero(n - (a * n) / 1_000_000_000_000_000_000)
    }
}

/// Relies on `sp_arithmetic::FixedI128`: `from_inner` stores the raw
/// scaled value, and `saturating_mul_acc_int` returns `n + n * m`
/// saturating at the `u128` bounds, truncating the scaled product toward
/// zero, taking the saturated absolute value of a negative scalar.
#[verifier::external_body]
pub(crate) fn current_mul_acc(inner: i128, n: u128) -> (r: u128)
    ensures
        r == current_mul_acc_spec(inner as int, n as int),
{
    sp_arithmetic::FixedI128::from_inner(inner).saturating_mul_acc_int(n)
}

} // verus!
