//! The polynomial cost model.
//!
//! A polynomial is an ordered sequence of coefficients; evaluation walks
//! the sequence in the caller-supplied order, adding or subtracting each
//! term with saturating arithmetic.  Because subtraction clamps at zero,
//! the order of the terms is significant and is never changed.

use vstd::prelude::*;
use vstd::arithmetic::power::pow;
use vstd::arithmetic::div_mod::lemma_div_pos_is_pos;
use crate::arith::{cap_u64, cap_u128, floor_zero, sat_add_u128, sat_mul_u128, sat_sub_u128,
    sat_pow_u64};
use crate::fixed::{perbill_mul, perbill_mul_spec};

verus! {

/// One term of the cost polynomial: the value
/// `±(coeff_integer + coeff_frac / 10^9) * weight^degree`.
///
/// The two magnitude fields are never combined into one signed number;
/// the sign applies to the whole term at accumulation time.
pub struct Coefficient {
    /// The whole-number part of the coefficient.
    pub coeff_integer: u128,
    /// The fractional part, in billionths; at most one billion.
    pub coeff_frac: u32,
    /// Whether the term is subtracted rather than added.
    pub negative: bool,
    /// The exponent applied to the weight before multiplying.
    pub degree: u8,
}

impl Coefficient {
    /// A well-formed coefficient's fraction does not exceed one billion.
    pub open spec fn wf(&self) -> bool {
        self.coeff_frac <= 1_000_000_000
    }

    /// Builds a coefficient; a fraction above one billion clamps there,
    /// as the fixed-point fraction type it feeds would clamp it.
    pub fn new(coeff_integer: u128, coeff_frac: u32, negative: bool, degree: u8) -> (c: Self)
        ensures
            c.coeff_integer == coeff_integer,
            c.coeff_frac == if coeff_frac <= 1_000_000_000 {
                coeff_frac as int
            } else {
                1_000_000_000int
            },
            c.negative == negative,
            c.degree == degree,
            c.wf(),
    {
        let frac: u32 = if coeff_frac <= 1_000_000_000 {
            coeff_frac
        } else {
            1_000_000_000
        };
        Coefficient { coeff_integer, coeff_frac: frac, negative, degree }
    }
}

/// One evaluation step: fold the coefficient `c` into the accumulator at
/// the given weight, saturating at the `u128` bounds.  The fractional
/// share is applied before the whole share, as the engine always has.
pub open spec fn eval_step(acc: int, weight: int, c: Coefficient) -> int {
    let wp = cap_u64(pow(weight, c.degree as nat));
    let frac = perbill_mul_spec(c.coeff_frac as int, wp);
    let integer = cap_u128(c.coeff_integer * wp);
    if c.negative {
        floor_zero(floor_zero(acc - frac) - integer)
    } else {
        cap_u128(cap_u128(acc + frac) + integer)
    }
}

/// The polynomial evaluated at a weight: the terms folded in sequence
/// order, starting from zero.
pub open spec fn eval_poly(weight: int, cs: Seq<Coefficient>) -> int
    decreases cs.len(),
{
    if cs.len() == 0 {
        0
    } else {
        eval_step(eval_poly(weight, cs.drop_last()), weight, cs.last())
    }
}

/// The fractional share of a term is never negative.
proof fn lemma_perbill_mul_spec_nonneg(parts: int, b: int)
    requires
        parts >= 0,
        b >= 0,
    ensures
        perbill_mul_spec(parts, b) >= 0,
{
    assert(b * parts >= 0) by (nonlinear_arith)
        requires
            parts >= 0,
            b >= 0,
    ;
    lemma_div_pos_is_pos(b * parts, 1_000_000_000int);
}

/// Totality of evaluation: at every weight, every polynomial evaluates to
/// a value within the `u128` range; overflow clamps instead of escaping.
pub proof fn lemma_eval_poly_total(weight: int, cs: Seq<Coefficient>)
    requires
        weight >= 0,
    ensures
        0 <= eval_poly(weight, cs) <= u128::MAX,
    decreases cs.len(),
{
    if cs.len() > 0 {
        lemma_eval_poly_total(weight, cs.drop_last());
        let acc = eval_poly(weight, cs.drop_last());
        let c = cs.last();
        let wp = cap_u64(pow(weight, c.degree as nat));
        assert(wp >= 0) by {
            if weight == 0 {
                if c.degree > 0 {
                    vstd::arithmetic::power::lemma0_pow(c.degree as nat);
                } else {
                    vstd::arithmetic::power::lemma_pow0(weight);
                }
            } else {
                vstd::arithmetic::power::lemma_pow_positive(weight, c.degree as nat);
            }
        }
        lemma_perbill_mul_spec_nonneg(c.coeff_frac as int, wp);
        assert(c.coeff_integer * wp >= 0) by (nonlinear_arith)
            requires
                c.coeff_integer >= 0,
                wp >= 0,
        ;
    }
}

/// Order sensitivity: a polynomial of a subtracted constant five followed
/// by an added constant ten evaluates to exactly ten at every weight --
/// the early subtraction clamps at zero instead of eating into the later
/// addition, so the caller-supplied order decides the result.
pub proof fn lemma_order_sensitivity(weight: u64, c1: Coefficient, c2: Coefficient)
    requires
        c1.coeff_integer == 5,
        c1.coeff_frac == 0,
        c1.negative,
        c1.degree == 0,
        c2.coeff_integer == 10,
        c2.coeff_frac == 0,
        !c2.negative,
        c2.degree == 0,
    ensures
        eval_poly(weight as int, seq![c1, c2]) == 10,
{
    let s = seq![c1, c2];
    vstd::arithmetic::power::lemma_pow0(weight as int);
    assert(s.drop_last() =~= seq![c1]);
    assert(seq![c1].drop_last() =~= Seq::<Coefficient>::empty());
    assert(perbill_mul_spec(0, 1) == 0);
    assert(eval_poly(weight as int, Seq::<Coefficient>::empty()) == 0);
    assert(eval_step(0, weight as int, c1) == 0);
    assert(eval_poly(weight as int, seq![c1]) == 0);
    assert(eval_step(0, weight as int, c2) == 10);
}

/// Evaluates the polynomial at a weight, in sequence order.
pub fn weight_to_fee(weight: u64, polynomial: &[Coefficient]) -> (fee: u128)
    requires
        forall|i: int| 0 <= i < polynomial@.len() ==> polynomial@[i].wf(),
    ensures
        fee == eval_poly(weight as int, polynomial@),
{
    let mut acc: u128 = 0;
    let mut idx: usize = 0;
    while idx < polynomial.len()
        invariant
            idx <= polynomial@.len(),
            forall|i: int| 0 <= i < polynomial@.len() ==> polynomial@[i].wf(),
            acc == eval_poly(weight as int, polynomial@.take(idx as int)),
        decreases polynomial@.len() - idx,
    {
        let c = &polynomial[idx];
        let wp64 = sat_pow_u64(weight, c.degree);
        let wp = wp64 as u128;
        let frac = perbill_mul(c.coeff_frac, wp);
        let integer = sat_mul_u128(c.coeff_integer, wp);
        if c.negative {
            acc = sat_sub_u128(acc, frac);
            acc = sat_sub_u128(acc, integer);
        } else {
            acc = sat_add_u128(acc, frac);
            acc = sat_add_u128(acc, integer);
        }
        proof {
            let taken = polynomial@.take(idx + 1);
            assert(taken.drop_last() =~= polynomial@.take(idx as int));
            assert(taken.last() == polynomial@[idx as int]);
        }
        idx = idx + 1;
    }
    proof {
        assert(polynomial@.take(polynomial@.len() as int) =~= polynomial@);
    }
    acc
}

} // verus!
