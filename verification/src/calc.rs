//! The fee calculator.
//!
//! Built once from validated inputs, it precomputes the base fee by
//! evaluating the polynomial at the base weight; every later query is a
//! pure, saturating combination of length fee, weight fee, multiplier and
//! base fee.

use vstd::prelude::*;
use crate::arith::{cap_u128, sat_add_u128, sat_mul_u128};
use crate::multiplier::{lemma_multiplier_of_zero, Multiplier};
use crate::poly::{eval_poly, weight_to_fee, Coefficient};

verus! {

/// An immutable fee calculator; no field changes after construction.
pub struct CalcFee {
    /// The cost polynomial, in evaluation order.
    pub polynomial: Vec<Coefficient>,
    /// The congestion multiplier.
    pub multiplier: Multiplier,
    /// The fee charged per byte of transaction length.
    pub per_byte_fee: u128,
    /// The polynomial evaluated at the base weight, computed once.
    pub base_fee: u128,
}

impl CalcFee {
    /// Every coefficient of the polynomial is well formed.
    pub open spec fn wf(&self) -> bool {
        forall|i: int| 0 <= i < self.polynomial@.len() ==> self.polynomial@[i].wf()
    }

    /// The fee owed for a query: the length fee plus the weight fee,
    /// scaled by the multiplier, plus the base fee, each step saturating
    /// at the `u128` bounds.
    pub open spec fn spec_calc_fee(&self, weight: int, len: int) -> int {
        let len_fee = cap_u128(self.per_byte_fee * len);
        let weight_fee = eval_poly(weight, self.polynomial@);
        let adjustable_fee = cap_u128(len_fee + weight_fee);
        let adjusted_fee = self.multiplier.spec_calc(adjustable_fee);
        cap_u128(self.base_fee + adjusted_fee)
    }

    /// Builds a calculator from already-validated inputs and evaluates
    /// the polynomial once at the base weight to fix the base fee.
    pub fn from_params(
        polynomial: Vec<Coefficient>,
        extrinsic_base_weight: u64,
        multiplier: i128,
        per_byte_fee: u128,
        fixed128_bug: bool,
        fixed128_legacy: bool,
    ) -> (c: Self)
        requires
            forall|i: int| 0 <= i < polynomial@.len() ==> polynomial@[i].wf(),
        ensures
            c.polynomial@ == polynomial@,
            fixed128_legacy ==> c.multiplier == (Multiplier::Legacy { inner: multiplier }),
            !fixed128_legacy ==> c.multiplier == (Multiplier::Current {
                inner: multiplier,
                bug_compatible: fixed128_bug,
            }),
            c.per_byte_fee == per_byte_fee,
            c.base_fee == eval_poly(extrinsic_base_weight as int, polynomial@),
            c.wf(),
    {
        let multiplier = Multiplier::new(multiplier, fixed128_legacy, fixed128_bug);
        let base_fee = weight_to_fee(extrinsic_base_weight, polynomial.as_slice());
        CalcFee { polynomial, multiplier, per_byte_fee, base_fee }
    }

    /// Computes the fee for one query; pure, deterministic and total: the
    /// result is a function of the calculator and the two arguments
    /// alone.
    pub fn calc_fee(&self, weight: u64, len: u32) -> (fee: u128)
        requires
            self.wf(),
        ensures
            fee == self.spec_calc_fee(weight as int, len as int),
    {
        let len_fee = sat_mul_u128(self.per_byte_fee, len as u128);
        let unadjusted_weight_fee = weight_to_fee(weight, self.polynomial.as_slice());
        let adjustable_fee = sat_add_u128(len_fee, unadjusted_weight_fee);
        let adjusted_fee = self.multiplier.calc(adjustable_fee);
        sat_add_u128(self.base_fee, adjusted_fee)
    }
}

/// Determinism: the fee is a function of the calculator and the query
/// alone, so any two results that `calc_fee`'s contract admits for the
/// same calculator, weight and length are equal; no hidden state can
/// affect the output.
pub proof fn lemma_calc_fee_deterministic(c: CalcFee, weight: u64, len: u32, fee1: u128, fee2: u128)
    requires
        fee1 == c.spec_calc_fee(weight as int, len as int),
        fee2 == c.spec_calc_fee(weight as int, len as int),
    ensures
        fee1 == fee2,
{
}

/// Base-fee invariance: a calculator whose polynomial is empty and whose
/// per-byte fee is zero owes a zero fee for every weight and length --
/// the weight fee, length fee and base fee all vanish, and every
/// multiplier maps a zero balance to zero.
pub proof fn lemma_empty_calculator_fee_is_zero(c: CalcFee, weight: u64, len: u32)
    requires
        c.polynomial@.len() == 0,
        c.per_byte_fee == 0,
        c.base_fee == 0,
    ensures
        c.spec_calc_fee(weight as int, len as int) == 0,
{
    assert(c.per_byte_fee * len == 0) by (nonlinear_arith)
        requires
            c.per_byte_fee == 0,
    ;
    lemma_multiplier_of_zero(c.multiplier);
}

} // verus!
