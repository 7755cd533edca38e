//! Saturating arithmetic over the fixed integer widths the fee engine uses.
//!
//! Every operation clamps at the representable bounds instead of wrapping,
//! overflowing or erroring, so fee evaluation is total.

use vstd::prelude::*;
use vstd::arithmetic::power::pow;

verus! {

/// Clamps a mathematical integer at the top of the `u64` range.
pub open spec fn cap_u64(x: int) -> int {
    if x > u64::MAX {
        u64::MAX as int
    } else {
        x
    }
}

/// Clamps a mathematical integer at the top of the `u128` range.
pub open spec fn cap_u128(x: int) -> int {
    if x > u128::MAX {
        u128::MAX as int
    } else {
        x
    }
}

/// Clamps a mathematical integer at zero, the unsigned floor.
pub open spec fn floor_zero(x: int) -> int {
    if x < 0 {
        0
    } else {
        x
    }
}

/// Saturating `u128` addition: clamps at `u128::MAX`.
pub fn sat_add_u128(a: u128, b: u128) -> (r: u128)
    ensures
        r == cap_u128(a + b),
{
    a.saturating_add(b)
}

/// Saturating `u128` subtraction: clamps at zero.
pub fn sat_sub_u128(a: u128, b: u128) -> (r: u128)
    ensures
        r == floor_zero(a - b),
{
    a.saturating_sub(b)
}

/// Saturating `u128` multiplication: clamps at `u128::MAX`.
pub fn sat_mul_u128(a: u128, b: u128) -> (r: u128)
    ensures
        r == cap_u128(a * b),
{
    match a.checked_mul(b) {
        Some(v) => v,
        None => u128::MAX,
    }
}

/// Saturating `u64` multiplication: clamps at `u64::MAX`.
pub fn sat_mul_u64(a: u64, b: u64) -> (r: u64)
    ensures
        r == cap_u64(a * b),
{
    match a.checked_mul(b) {
        Some(v) => v,
        None => u64::MAX,
    }
}

/// Saturating `u64` exponentiation: clamps at `u64::MAX`.
pub fn sat_pow_u64(base: u64, exp: u8) -> (r: u64)
    ensures
        r == cap_u64(pow(base as int, exp as nat)),
{
    let mut r: u64 = 1;
    let mut i: u8 = 0;
    proof {
        reveal(pow);
    }
    while i < exp
        invariant
            i <= exp,
            r == cap_u64(pow(base as int, i as nat)),
        decreases exp - i,
    {
        let r2 = sat_mul_u64(r, base);
        proof {
            reveal(pow);
            assert(pow(base as int, (i + 1) as nat) == base * pow(base as int, i as nat));
            if pow(base as int, i as nat) > u64::MAX {
                // the exact power already exceeded the range, so it stays above it
                if base == 0 {
                    vstd::arithmetic::power::lemma0_pow(i as nat);
                    assert(false);
                }
                if base == 1 {
                    vstd::arithmetic::power::lemma1_pow(i as nat);
                    assert(false);
                }
                assert(base * pow(base as int, i as nat) > u64::MAX) by (nonlinear_arith)
                    requires
                        base >= 2,
                        pow(base as int, i as nat) > u64::MAX,
                ;
                assert(r * base >= u64::MAX) by (nonlinear_arith)
                    requires
                        r == u64::MAX,
                        base >= 2,
                ;
            }
        }
        proof {
            vstd::arithmetic::mul::lemma_mul_is_commutative(
                pow(base as int, i as nat),
                base as int,
            );
            assert(r2 == cap_u64(pow(base as int, (i + 1) as nat)));
        }
        r = r2;
        i = i + 1;
    }
    r
}

} // verus!
