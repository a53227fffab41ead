//! The fixed-point scalar kernel: exact products, quotients, roots,
//! truncation toward zero, and saturation at the ends of the range.

use pathtracer::fixed::{
    fx_add, fx_div, fx_divi, fx_min, fx_mul, fx_neg, fx_sqrt, fx_sub, FX_ONE,
};

const S: i64 = 65536;

#[test]
fn products_rescale_exactly() {
    assert_eq!(FX_ONE, S);
    // 1.5 * 0.5 == 0.75
    assert_eq!(fx_mul(3 * S / 2, S / 2), 3 * S / 4);
    assert_eq!(fx_mul(-3 * S / 2, S / 2), -3 * S / 4);
    assert_eq!(fx_mul(S, S), S);
}

#[test]
fn truncation_is_toward_zero() {
    // The smallest positive and negative values square to zero, from either
    // side: truncation rounds toward zero, not downward.
    assert_eq!(fx_mul(1, 1), 0);
    assert_eq!(fx_mul(-1, 1), 0);
    assert_eq!(fx_div(S, 3 * S), 21845);
    assert_eq!(fx_div(-S, 3 * S), -21845);
    assert_eq!(fx_divi(-7, 2), -3);
}

#[test]
fn square_roots() {
    assert_eq!(fx_sqrt(0), 0);
    assert_eq!(fx_sqrt(S), S);
    assert_eq!(fx_sqrt(4 * S), 2 * S);
    assert_eq!(fx_sqrt(S / 4), S / 2);
    // sqrt(2), truncated at the scale.
    assert_eq!(fx_sqrt(2 * S), 92681);
}

#[test]
fn saturation_at_range_ends() {
    assert_eq!(fx_add(i64::MAX, 1), i64::MAX);
    assert_eq!(fx_sub(i64::MIN, 1), i64::MIN);
    assert_eq!(fx_neg(i64::MIN), i64::MAX);
    assert_eq!(fx_mul(i64::MAX, i64::MAX), i64::MAX);
    assert_eq!(fx_mul(i64::MIN, i64::MAX), i64::MIN);
}

#[test]
fn minimum_of_two() {
    assert_eq!(fx_min(3, 5), 3);
    assert_eq!(fx_min(5, 3), 3);
    assert_eq!(fx_min(-5, 3), -5);
}
