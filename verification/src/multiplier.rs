//! The congestion multiplier.
//!
//! A multiplier scales the adjustable part of a fee by `1 + m`, where `m` is
//! a signed fixed-point scalar with denominator `10^18`.  Two historical
//! encodings exist and are preserved exactly: the current one, computed by
//! `sp_arithmetic::FixedI128` (with an optional bug-compatibility mode that
//! silently ignores negative scalars), and a legacy one, which splits the
//! scalar into whole and fractional parts and rounds the fractional product
//! to the nearest integer, half down.

use vstd::prelude::*;
use vstd::arithmetic::div_mod::{
    lemma_fundamental_div_mod,
    lemma_hoist_over_denominator,
    lemma_mod_multiples_basic,
    lemma_mod_multiples_vanish,
    lemma_multiply_divide_lt,
    lemma_div_multiples_vanish,
    lemma_div_pos_is_pos,
    lemma_div_is_ordered,
};
use vstd::arithmetic::mul::lemma_mul_is_commutative;
use crate::arith::{cap_u128, floor_zero, sat_add_u128, sat_mul_u128, sat_sub_u128};
use crate::fixed::{current_mul_acc, current_mul_acc_spec, round_half_down_div};

verus! {

/// The magnitude of a signed scalar; the most negative `i128` keeps its
/// exact magnitude `2^127`.
pub open spec fn legacy_abs(m: int) -> int {
    if m < 0 {
        -m
    } else {
        m
    }
}

/// The value `n + n * m` in the legacy encoding: the magnitude of the
/// scalar `m` (raw, over denominator `10^18`) splits into its whole part
/// and its fractional part; the whole product saturates at `u128::MAX`,
/// the fractional product rounds to the nearest integer, half down; their
/// sum is added to or subtracted from `n`, saturating at the `u128`
/// bounds.
pub open spec fn legacy_mul_acc_spec(m: int, n: int) -> int {
    let parts = legacy_abs(m);
    let natural = parts / 1_000_000_000_000_000_000;
    let frac = parts % 1_000_000_000_000_000_000;
    let excess = cap_u128(
        cap_u128(n * natural) + round_half_down_div(n * frac, 1_000_000_000_000_000_000),
    );
    if m > 0 {
        cap_u128(n + excess)
    } else {
        floor_zero(n - excess)
    }
}

/// A `frac`-quintillionths share of `n`, rounded to nearest (half down).
fn perquintill_mul(n: u128, frac: u128) -> (r: u128)
    requires
        frac < 1_000_000_000_000_000_000,
    ensures
        r == round_half_down_div(n * frac, 1_000_000_000_000_000_000),
{
    let q = n / 1_000_000_000_000_000_000u128;
    let rem = n % 1_000_000_000_000_000_000u128;
    proof {
        assert(rem * frac < 1_000_000_000_000_000_000 * 1_000_000_000_000_000_000)
            by (nonlinear_arith)
            requires
                rem < 1_000_000_000_000_000_000,
                frac < 1_000_000_000_000_000_000,
        ;
    }
    let t = rem * frac;
    let whole = t / 1_000_000_000_000_000_000u128;
    let c: u128 = if t % 1_000_000_000_000_000_000u128 > 500_000_000_000_000_000u128 {
        whole + 1
    } else {
        whole
    };
    proof {
        let d = 1_000_000_000_000_000_000int;
        lemma_fundamental_div_mod(n as int, d);
        assert(n * frac == d * ((q as int) * frac) + rem * frac) by (nonlinear_arith)
            requires
                n == d * (q as int) + rem,
                d == 1_000_000_000_000_000_000int,
        ;
        lemma_hoist_over_denominator(rem as int * frac, q as int * frac, d as nat);
        lemma_mul_is_commutative(q as int * frac, d);
        assert((n * frac) / d == q * frac + (t as int) / d);
        lemma_mod_multiples_vanish(q as int * frac, rem as int * frac, d);
        assert((n * frac) % d == (t as int) % d);
        lemma_div_pos_is_pos(n * frac, d);
        if frac == 0 {
            assert(n * frac == 0) by (nonlinear_arith)
                requires
                    frac == 0,
            ;
        } else {
            assert(n * frac < d * n || n == 0) by (nonlinear_arith)
                requires
                    frac < d,
                    n >= 0,
            ;
            if n > 0 {
                lemma_multiply_divide_lt(n * frac, d, n as int);
            }
        }
        assert(q * frac + c <= n);
    }
    q * frac + c
}

/// `n + n * m` for a legacy raw scalar `m`, saturating at the `u128`
/// bounds.
pub fn legacy_mul_acc(inner: i128, n: u128) -> (r: u128)
    ensures
        r == legacy_mul_acc_spec(inner as int, n as int),
{
    let parts: u128 = if inner >= 0 {
        inner as u128
    } else {
        ((-(inner + 1)) as u128) + 1
    };
    let natural = parts / 1_000_000_000_000_000_000u128;
    let frac = parts % 1_000_000_000_000_000_000u128;
    let nterm = sat_mul_u128(n, natural);
    let pterm = perquintill_mul(n, frac);
    let excess = sat_add_u128(nterm, pterm);
    if inner > 0 {
        sat_add_u128(n, excess)
    } else {
        sat_sub_u128(n, excess)
    }
}

/// The congestion scalar, in one of two mutually exclusive historical
/// encodings, chosen at construction and fixed for the value's lifetime.
pub enum Multiplier {
    /// The current fixed-point encoding; `bug_compatible` reproduces a
    /// historical defect where negative scalars were silently ignored.
    Current { inner: i128, bug_compatible: bool },
    /// The legacy fixed-point encoding.
    Legacy { inner: i128 },
}

impl Multiplier {
    /// The balance after this multiplier is applied.
    pub open spec fn spec_calc(&self, balance: int) -> int {
        match self {
            Multiplier::Current { inner, bug_compatible } => {
                if *bug_compatible && *inner < 0 {
                    balance
                } else {
                    current_mul_acc_spec(*inner as int, balance)
                }
            },
            Multiplier::Legacy { inner } => legacy_mul_acc_spec(*inner as int, balance),
        }
    }

    /// Selects the encoding from a raw scaled value and the two
    /// configuration flags.
    pub fn new(inner: i128, use_legacy: bool, bug: bool) -> (m: Self)
        ensures
            use_legacy ==> m == (Multiplier::Legacy { inner }),
            !use_legacy ==> m == (Multiplier::Current { inner, bug_compatible: bug }),
    {
        if use_legacy {
            Multiplier::Legacy { inner }
        } else {
            Multiplier::Current { inner, bug_compatible: bug }
        }
    }

    /// Applies the multiplier to a balance: pure, total, saturating.
    pub fn calc(&self, balance: u128) -> (r: u128)
        ensures
            r == self.spec_calc(balance as int),
    {
        match self {
            Multiplier::Current { inner, bug_compatible } => {
                if *bug_compatible && *inner < 0 {
                    // replicate the historical defect: a negative scalar
                    // leaves the balance unchanged
                    balance
                } else {
                    current_mul_acc(*inner, balance)
                }
            },
            Multiplier::Legacy { inner } => legacy_mul_acc(*inner, balance),
        }
    }
}

/// A bug-compatible current multiplier with a negative scalar returns
/// every balance unchanged.
pub proof fn lemma_bug_compatibility(m: Multiplier, balance: u128)
    requires
        m matches Multiplier::Current { inner, bug_compatible }
            && inner < 0 && bug_compatible,
    ensures
        m.spec_calc(balance as int) == balance,
{
}

/// Every multiplier maps a zero balance to zero.
pub proof fn lemma_multiplier_of_zero(m: Multiplier)
    ensures
        m.spec_calc(0) == 0,
{
    let d = 1_000_000_000_000_000_000int;
    match m {
        Multiplier::Current { inner, bug_compatible } => {
            assert(current_mul_acc_spec(inner as int, 0) == 0) by {
                if inner >= 0 {
                    assert(inner * 0 == 0) by (nonlinear_arith);
                    assert(0int / d == 0);
                } else {
                    let a = if inner == i128::MIN {
                        i128::MAX as int
                    } else {
                        -(inner as int)
                    };
                    assert(a * 0 == 0) by (nonlinear_arith);
                    assert(0int / d == 0);
                }
            }
        },
        Multiplier::Legacy { inner } => {
            let parts = legacy_abs(inner as int);
            let natural = parts / d;
            let frac = parts % d;
            assert(0 * natural == 0) by (nonlinear_arith);
            assert(0 * frac == 0) by (nonlinear_arith);
            assert(round_half_down_div(0, d) == 0);
        },
    }
}

/// The two encodings agree to within one unit of the result on every
/// scalar and every balance: both scale by the same denominator `10^18`,
/// and the only difference is the rounding of the fractional product --
/// the current encoding truncates where the legacy one rounds to nearest.
pub proof fn lemma_parity_within_one(inner: i128, n: u128)
    ensures
        current_mul_acc_spec(inner as int, n as int)
            <= legacy_mul_acc_spec(inner as int, n as int) + 1,
        legacy_mul_acc_spec(inner as int, n as int)
            <= current_mul_acc_spec(inner as int, n as int) + 1,
{
    let d = 1_000_000_000_000_000_000int;
    let m = inner as int;
    let parts = legacy_abs(m);
    let q = parts / d;
    let f = parts % d;
    if n == 0 {
        assert(parts * 0 == 0) by (nonlinear_arith);
        assert(0 * q == 0) by (nonlinear_arith);
        assert(0 * f == 0) by (nonlinear_arith);
        assert(round_half_down_div(0, d) == 0);
        if m >= 0 {
            assert(m * 0 == 0) by (nonlinear_arith);
        } else {
            let a = if m == i128::MIN {
                i128::MAX as int
            } else {
                -m
            };
            assert(a * 0 == 0) by (nonlinear_arith);
        }
        assert(0int / d == 0);
    } else if m == i128::MIN as int {
        // both magnitudes dwarf the denominator, so both results are zero
        let a = i128::MAX as int;
        assert(a * n >= d * n) by (nonlinear_arith)
            requires
                a >= d,
                n >= 1,
        ;
        lemma_div_is_ordered(d * (n as int), a * n, d);
        lemma_div_multiples_vanish(n as int, d);
        assert((a * n) / d >= n);
        assert(q >= 1);
        assert(n * q >= n) by (nonlinear_arith)
            requires
                q >= 1,
                n >= 1,
        ;
        assert(n * f >= 0) by (nonlinear_arith)
            requires
                n >= 0,
                f >= 0,
        ;
        lemma_div_pos_is_pos(n as int * f, d);
        assert(round_half_down_div(n as int * f, d) >= 0);
    } else {
        // away from the most negative scalar both encodings use the exact
        // magnitude; split it into whole and fractional parts
        lemma_fundamental_div_mod(parts, d);
        assert(parts * n == d * (q * n) + f * n) by (nonlinear_arith)
            requires
                parts == d * q + f,
        ;
        lemma_hoist_over_denominator(f * (n as int), q * (n as int), d as nat);
        lemma_mul_is_commutative(q * (n as int), d);
        assert((parts * n) / d == q * n + (f * n) / d);
        lemma_mod_multiples_vanish(q * (n as int), f * (n as int), d);
        assert((parts * n) % d == (f * n) % d);
        lemma_mul_is_commutative(n as int, f);
        lemma_mul_is_commutative(n as int, q);
        assert(q * n >= 0) by (nonlinear_arith)
            requires
                q >= 0,
                n >= 0,
        ;
        assert(f * n >= 0) by (nonlinear_arith)
            requires
                f >= 0,
                n >= 0,
        ;
        lemma_div_pos_is_pos(f * (n as int), d);
        if m < 0 {
            assert(parts == -m);
        }
    }
}

/// The two encodings agree exactly on every scalar that is a whole
/// multiple of the shared denominator `10^18`, for every balance: at such
/// scalars neither encoding rounds, so the historical difference in
/// rounding conventions cannot show.
pub proof fn lemma_legacy_current_parity(inner: i128, n: u128)
    requires
        (inner as int) % 1_000_000_000_000_000_000int == 0,
    ensures
        current_mul_acc_spec(inner as int, n as int)
            == legacy_mul_acc_spec(inner as int, n as int),
{
    let d = 1_000_000_000_000_000_000int;
    let m = inner as int;
    assert((i128::MIN as int) % d != 0);
    assert(m != i128::MIN as int);
    let parts = legacy_abs(m);
    lemma_fundamental_div_mod(m, d);
    let k = m / d;
    assert(m == d * k);
    if m < 0 {
        assert(parts == d * (-k));
        lemma_mul_is_commutative(d, -k);
        lemma_mod_multiples_basic(-k, d);
        assert(parts % d == 0);
        lemma_div_multiples_vanish(-k, d);
        assert(parts / d == -k);
    } else {
        lemma_mul_is_commutative(d, k);
        lemma_mod_multiples_basic(k, d);
        lemma_div_multiples_vanish(k, d);
        assert(parts % d == 0);
        assert(parts / d == k);
    }
    let natural = parts / d;
    // the fractional share of the balance vanishes
    assert(n * (parts % d) == 0) by (nonlinear_arith)
        requires
            parts % d == 0,
    ;
    assert(round_half_down_div(0, d) == 0);
    // the whole product agrees with the truncated fixed-point product
    assert(parts * n == d * (natural * n)) by (nonlinear_arith)
        requires
            parts == d * natural,
    ;
    lemma_div_multiples_vanish(natural * (n as int), d);
    assert((parts * n) / d == natural * n);
    lemma_mul_is_commutative(n as int, natural);
    if m >= 0 {
        assert(current_mul_acc_spec(m, n as int) == cap_u128(n + natural * n));
        assert(legacy_mul_acc_spec(m, n as int)
            == if m > 0 {
                cap_u128(n + cap_u128(n * natural))
            } else {
                floor_zero(n - cap_u128(n * natural))
            });
        if m == 0 {
            assert(natural == 0);
            assert(natural * n == 0) by (nonlinear_arith)
                requires
                    natural == 0,
            ;
        }
    } else {
        assert(natural * n >= 0) by (nonlinear_arith)
            requires
                natural >= 0,
                n >= 0,
        ;
    }
}

} // verus!
