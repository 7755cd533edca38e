use calc_fee::calc::CalcFee;
use calc_fee::multiplier::Multiplier;
use calc_fee::poly::{weight_to_fee, Coefficient};

const UNIT: i128 = 1_000_000_000_000_000_000;

#[test]
fn coefficient_fraction_clamps_at_one_billion() {
    let c = Coefficient::new(0, u32::MAX, false, 0);
    assert_eq!(c.coeff_frac, 1_000_000_000);
    let exact = Coefficient::new(0, 999_999_999, false, 0);
    assert_eq!(exact.coeff_frac, 999_999_999);
}

#[test]
fn evaluation_is_order_sensitive() {
    // a subtracted five clamps at zero before the added ten lands
    let poly = vec![
        Coefficient::new(5, 0, true, 0),
        Coefficient::new(10, 0, false, 0),
    ];
    for w in [0u64, 1, 2, 1_000_000, u64::MAX] {
        assert_eq!(weight_to_fee(w, &poly), 10);
    }
    // the reversed order lets the subtraction bite
    let reversed = vec![
        Coefficient::new(10, 0, false, 0),
        Coefficient::new(5, 0, true, 0),
    ];
    for w in [0u64, 1, u64::MAX] {
        assert_eq!(weight_to_fee(w, &reversed), 5);
    }
}

#[test]
fn fractional_coefficient_rounds_to_nearest() {
    // half a unit of weight ten is five; an argument handed back
    // unchanged would give ten
    let poly = vec![Coefficient::new(0, 500_000_000, false, 1)];
    assert_eq!(weight_to_fee(10, &poly), 5);
    // 0.6 of weight one rounds half-up territory: 0.6 -> 1
    let point_six = vec![Coefficient::new(0, 600_000_000, false, 0)];
    assert_eq!(weight_to_fee(1, &point_six), 1);
    // 0.5 of weight one is an exact half and rounds down
    let half = vec![Coefficient::new(0, 500_000_000, false, 0)];
    assert_eq!(weight_to_fee(1, &half), 0);
}

#[test]
fn evaluation_clamps_instead_of_overflowing() {
    let poly = vec![Coefficient::new(u128::MAX, 0, false, 255)];
    assert_eq!(weight_to_fee(u64::MAX, &poly), u128::MAX);
    assert_eq!(weight_to_fee(0, &poly), 0);
}

#[test]
fn bug_compatible_negative_multiplier_is_ignored() {
    let m = Multiplier::new(-UNIT, false, true);
    for balance in [0u128, 1, 123_456, u128::MAX] {
        assert_eq!(m.calc(balance), balance);
    }
}

#[test]
fn negative_multiplier_reduces_balance_without_bug_mode() {
    // minus one: the whole adjustable fee is cancelled
    let minus_one = Multiplier::new(-UNIT, false, false);
    assert_eq!(minus_one.calc(100), 0);
    assert_eq!(minus_one.calc(u128::MAX), 0);
    // minus a half: half the balance remains
    let minus_half = Multiplier::new(-UNIT / 2, false, false);
    assert_eq!(minus_half.calc(100), 50);
}

#[test]
fn positive_multiplier_saturates_at_the_top() {
    let m = Multiplier::new(i128::MAX, false, false);
    assert_eq!(m.calc(u128::MAX), u128::MAX);
}

#[test]
fn legacy_and_current_agree_on_whole_multiples() {
    for inner in [0i128, UNIT, 3 * UNIT, -UNIT, -2 * UNIT] {
        let current = Multiplier::new(inner, false, false);
        let legacy = Multiplier::new(inner, true, false);
        for balance in [0u128, 1, 110, 1_000_000_007, u128::MAX] {
            assert_eq!(current.calc(balance), legacy.calc(balance));
        }
    }
}

#[test]
fn extreme_negative_scalar_cancels_everything() {
    // the most negative scalar dwarfs the denominator in both encodings
    let current = Multiplier::new(i128::MIN, false, false);
    let legacy = Multiplier::new(i128::MIN, true, false);
    for balance in [0u128, 1, 5, u128::MAX] {
        assert_eq!(current.calc(balance), 0);
        assert_eq!(legacy.calc(balance), 0);
    }
}

#[test]
fn legacy_rounds_to_nearest_where_current_truncates() {
    // 0.6 of three is 1.8: the legacy encoding rounds it to two,
    // the current encoding truncates it to one
    let inner = 6 * UNIT / 10;
    let current = Multiplier::new(inner, false, false);
    let legacy = Multiplier::new(inner, true, false);
    assert_eq!(current.calc(3), 4);
    assert_eq!(legacy.calc(3), 5);
}

#[test]
fn legacy_exact_half_rounds_down() {
    let legacy = Multiplier::new(UNIT / 2, true, false);
    assert_eq!(legacy.calc(3), 4); // 3 + 1.5 -> 3 + 1
    assert_eq!(legacy.calc(4), 6); // 4 + 2.0 exactly
}

#[test]
fn base_fee_is_evaluated_at_construction() {
    let poly = vec![Coefficient::new(2, 0, false, 2)];
    let calc = CalcFee::from_params(poly, 10, UNIT, 0, false, false);
    assert_eq!(calc.base_fee, 200);
    // a query at weight zero owes only the base fee
    assert_eq!(calc.calc_fee(0, 0), 200);
}

#[test]
fn empty_calculator_owes_nothing() {
    let calc = CalcFee::from_params(Vec::new(), 123, UNIT, 0, false, false);
    for (w, l) in [(0u64, 0u32), (1, 1), (u64::MAX, u32::MAX)] {
        assert_eq!(calc.calc_fee(w, l), 0);
    }
}

#[test]
fn end_to_end_linear_fee() {
    let poly = vec![Coefficient::new(1, 0, false, 1)];
    let calc = CalcFee::from_params(poly, 0, UNIT, 1, false, false);
    // weightFee 100, lenFee 10, adjustable 110, doubled by the
    // one-point-zero multiplier, base fee zero
    assert_eq!(calc.calc_fee(100, 10), 220);
}

#[test]
fn end_to_end_legacy_flag_selects_legacy_encoding() {
    let poly = vec![Coefficient::new(1, 0, false, 1)];
    let calc = CalcFee::from_params(poly, 0, UNIT, 1, false, true);
    // a whole one-point-zero scalar doubles the fee in either encoding
    assert_eq!(calc.calc_fee(100, 10), 220);
}

#[test]
fn end_to_end_bug_flag_ignores_negative_scalar() {
    let poly = vec![Coefficient::new(1, 0, false, 1)];
    let calc = CalcFee::from_params(poly, 0, -UNIT, 1, true, false);
    // without bug compatibility the minus-one scalar would cancel the
    // whole adjustable fee
    assert_eq!(calc.calc_fee(100, 10), 110);
    let strict = CalcFee::from_params(
        vec![Coefficient::new(1, 0, false, 1)],
        0,
        -UNIT,
        1,
        false,
        false,
    );
    assert_eq!(strict.calc_fee(100, 10), 0);
}

#[test]
fn identical_queries_return_identical_fees() {
    let poly = vec![
        Coefficient::new(3, 250_000_000, false, 2),
        Coefficient::new(1, 0, true, 1),
    ];
    let calc = CalcFee::from_params(poly, 7, 5 * UNIT / 4, 11, false, false);
    let first = calc.calc_fee(1_000, 321);
    let second = calc.calc_fee(1_000, 321);
    assert_eq!(first, second);
}

#[test]
fn per_byte_fee_scales_with_length() {
    let calc = CalcFee::from_params(Vec::new(), 0, 0, 7, false, false);
    // zero multiplier leaves the adjustable fee unscaled
    assert_eq!(calc.calc_fee(0, 10), 70);
    assert_eq!(calc.calc_fee(0, 0), 0);
}
