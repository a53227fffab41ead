//! Fixed-point scalar arithmetic.
//!
//! A scalar is an `i64` holding its value times 2^16 ([`FX_ONE`]). Products
//! and quotients are computed exactly in wide integers, truncated toward
//! zero, and saturated to the `i64` range. Each executable operation's
//! contract pins its result to the corresponding spec-level formula.

use vstd::prelude::*;
use vstd::arithmetic::div_mod::*;

verus! {

/// A scalar: the represented value times [`FX_ONE`].
pub type Fx = i64;

/// The fixed-point scale; the representation of the value one.
pub const FX_ONE: i64 = 65536;

/// Magnitude of a mathematical integer.
pub open spec fn iabs(x: int) -> int {
    if x < 0 { -x } else { x }
}

/// Saturation of a mathematical integer to the `i64` range.
pub open spec fn sat64(x: int) -> int {
    if x > i64::MAX { i64::MAX as int } else if x < i64::MIN { i64::MIN as int } else { x }
}

/// Division truncated toward zero, as the executable wide division performs it.
pub open spec fn tdiv(a: int, b: int) -> int
    recommends b != 0,
{
    if (a >= 0) == (b >= 0) { iabs(a) / iabs(b) } else { -(iabs(a) / iabs(b)) }
}

/// The fixed-point product: the wide product, rescaled and saturated.
pub open spec fn fxmul(a: int, b: int) -> int {
    sat64(tdiv(a * b, FX_ONE as int))
}

/// The fixed-point quotient: the scaled dividend over the divisor, saturated.
pub open spec fn fxdiv(a: int, b: int) -> int
    recommends b != 0,
{
    sat64(tdiv(a * (FX_ONE as int), b))
}

/// Saturating sum.
pub open spec fn fxadd(a: int, b: int) -> int {
    sat64(a + b)
}

/// Saturating difference.
pub open spec fn fxsub(a: int, b: int) -> int {
    sat64(a - b)
}

/// Saturating negation.
pub open spec fn fxneg(a: int) -> int {
    sat64(-a)
}

/// The integer square root: the greatest `r` with `r * r <= n` (zero for
/// negative arguments).
pub open spec fn isqrt(n: int) -> int
    decreases n,
{
    if n <= 0 {
        0
    } else {
        let r = isqrt(n - 1);
        if (r + 1) * (r + 1) <= n { r + 1 } else { r }
    }
}

/// The fixed-point square root of a non-negative scalar: the integer square
/// root of the value rescaled so that the result is again a scalar.
pub open spec fn fxsqrt(a: int) -> int {
    isqrt(a * (FX_ONE as int))
}

/// `isqrt` brackets its argument between consecutive squares.
pub proof fn lemma_isqrt_props(n: int)
    requires
        n >= 0,
    ensures
        isqrt(n) >= 0,
        isqrt(n) * isqrt(n) <= n,
        n < (isqrt(n) + 1) * (isqrt(n) + 1),
    decreases n,
{
    if n > 0 {
        lemma_isqrt_props(n - 1);
        let r = isqrt(n - 1);
        if (r + 1) * (r + 1) <= n {
            assert(n < ((r + 1) + 1) * ((r + 1) + 1)) by (nonlinear_arith)
                requires n - 1 < (r + 1) * (r + 1) && r >= 0;
        }
    }
}

/// The product of two `i64`-range values stays well inside the `i128` range.
pub(crate) proof fn lemma_i64_prod_in_i128(a: int, b: int) by (nonlinear_arith)
    requires
        i64::MIN <= a <= i64::MAX,
        i64::MIN <= b <= i64::MAX,
    ensures
        iabs(a * b) <= 0x4000_0000_0000_0000_0000_0000_0000_0000int,
{
}

/// The bracketing property determines `isqrt` uniquely.
pub proof fn lemma_isqrt_unique(n: int, r: int)
    requires
        n >= 0,
        r >= 0,
        r * r <= n,
        n < (r + 1) * (r + 1),
    ensures
        isqrt(n) == r,
{
    lemma_isqrt_props(n);
    let s = isqrt(n);
    if s < r {
        assert(false) by (nonlinear_arith)
            requires s >= 0 && r >= 0 && s < r && r * r <= n && n < (s + 1) * (s + 1);
    }
    if r < s {
        assert(false) by (nonlinear_arith)
            requires s >= 0 && r >= 0 && r < s && s * s <= n && n < (r + 1) * (r + 1);
    }
}

/// Magnitudes pass through truncating division: the quotient's magnitude is
/// at most the dividend's magnitude divided by a positive divisor.
pub proof fn lemma_tdiv_abs_bound(a: int, b: int, m: int)
    requires
        b > 0,
        iabs(a) <= m,
    ensures
        iabs(tdiv(a, b)) <= m / b,
{
    lemma_div_pos_is_pos(iabs(a), b);
    lemma_div_is_ordered(iabs(a), m, b);
}

/// Truncating division loses less than one divisor's worth: scaling the
/// quotient back misses the dividend by less than `b`.
pub proof fn lemma_tdiv_err(u: int, b: int)
    requires
        b > 0,
    ensures
        iabs(b * tdiv(u, b) - u) < b,
{
    if u >= 0 {
        lemma_fundamental_div_mod(u, b);
        lemma_mod_bound(u, b);
    } else {
        lemma_fundamental_div_mod(-u, b);
        lemma_mod_bound(-u, b);
        assert(b * tdiv(u, b) == -(b * ((-u) / b))) by (nonlinear_arith)
            requires tdiv(u, b) == -((-u) / b);
    }
}

/// A whole multiple of the divisor passes through truncating division
/// exactly.
pub proof fn lemma_tdiv_multiple(q: int, b: int)
    requires
        b > 0,
    ensures
        tdiv(q * b, b) == q,
{
    if q >= 0 {
        assert(q * b >= 0 && iabs(q * b) == b * q) by (nonlinear_arith)
            requires q >= 0 && b > 0;
        lemma_div_multiples_vanish(q, b);
    } else {
        assert(q * b < 0 && iabs(q * b) == b * (-q)) by (nonlinear_arith)
            requires q < 0 && b > 0;
        lemma_div_multiples_vanish(-q, b);
    }
}

/// Saturation preserves order.
pub proof fn lemma_sat64_monotone(a: int, b: int)
    requires
        a <= b,
    ensures
        sat64(a) <= sat64(b),
{
}

/// Truncating division by a positive divisor preserves order of dividends.
pub proof fn lemma_tdiv_monotone(a: int, a2: int, b: int)
    requires
        a <= a2,
        b > 0,
    ensures
        tdiv(a, b) <= tdiv(a2, b),
{
    if a >= 0 {
        lemma_div_is_ordered(a, a2, b);
    } else if a2 < 0 {
        lemma_div_is_ordered(-a2, -a, b);
    } else {
        lemma_div_pos_is_pos(-a, b);
        lemma_div_pos_is_pos(a2, b);
    }
}

/// The fixed-point product of non-negative scalars is non-negative and
/// preserves order in both factors.
pub proof fn lemma_fxmul_monotone_nonneg(a: int, b: int, a2: int, b2: int)
    requires
        0 <= a <= a2,
        0 <= b <= b2,
    ensures
        0 <= fxmul(a, b) <= fxmul(a2, b2),
{
    assert(0 <= a * b <= a2 * b2) by (nonlinear_arith)
        requires 0 <= a <= a2 && 0 <= b <= b2;
    lemma_div_pos_is_pos(a * b, FX_ONE as int);
    lemma_tdiv_monotone(a * b, a2 * b2, FX_ONE as int);
    lemma_sat64_monotone(tdiv(a * b, FX_ONE as int), tdiv(a2 * b2, FX_ONE as int));
}

/// The fixed-point product of scalars between zero and one stays between
/// zero and one, and below each factor.
pub proof fn lemma_fxmul_unit(a: int, b: int)
    requires
        0 <= a <= FX_ONE as int,
        0 <= b <= FX_ONE as int,
    ensures
        0 <= fxmul(a, b) <= FX_ONE as int,
        fxmul(a, b) <= a,
        fxmul(a, b) <= b,
{
    lemma_fxmul_monotone_nonneg(a, b, a, FX_ONE as int);
    lemma_fxmul_monotone_nonneg(a, b, FX_ONE as int, b);
    assert(a * (FX_ONE as int) >= 0) by (nonlinear_arith)
        requires a >= 0;
    lemma_div_multiples_vanish(a, FX_ONE as int);
    lemma_div_multiples_vanish(b, FX_ONE as int);
    assert(a * (FX_ONE as int) == (FX_ONE as int) * a) by (nonlinear_arith);
    assert(b * (FX_ONE as int) == (FX_ONE as int) * b) by (nonlinear_arith);
}

pub(crate) fn sat_i128(x: i128) -> (r: i64)
    ensures
        r as int == sat64(x as int),
{
    if x > i64::MAX as i128 {
        i64::MAX
    } else if x < i64::MIN as i128 {
        i64::MIN
    } else {
        x as i64
    }
}

/// Wide division truncated toward zero, via unsigned magnitudes.
pub(crate) fn tdiv_i128(a: i128, b: i128) -> (r: i128)
    requires
        b != 0,
        a > i128::MIN,
        b > i128::MIN,
    ensures
        r as int == tdiv(a as int, b as int),
{
    let ma: u128 = if a < 0 { (-a) as u128 } else { a as u128 };
    let mb: u128 = if b < 0 { (-b) as u128 } else { b as u128 };
    let q: u128 = ma / mb;
    proof {
        lemma_div_nonincreasing(ma as int, mb as int);
    }
    if (a < 0) != (b < 0) {
        -(q as i128)
    } else {
        q as i128
    }
}

/// Saturating scalar sum.
pub fn fx_add(a: Fx, b: Fx) -> (r: Fx)
    ensures
        r as int == fxadd(a as int, b as int),
{
    sat_i128(a as i128 + b as i128)
}

/// Saturating scalar difference.
pub fn fx_sub(a: Fx, b: Fx) -> (r: Fx)
    ensures
        r as int == fxsub(a as int, b as int),
{
    sat_i128(a as i128 - b as i128)
}

/// Saturating scalar negation.
pub fn fx_neg(a: Fx) -> (r: Fx)
    ensures
        r as int == fxneg(a as int),
{
    sat_i128(-(a as i128))
}

/// Fixed-point product.
pub fn fx_mul(a: Fx, b: Fx) -> (r: Fx)
    ensures
        r as int == fxmul(a as int, b as int),
{
    proof {
        lemma_i64_prod_in_i128(a as int, b as int);
    }
    let p: i128 = (a as i128) * (b as i128);
    let q: i128 = tdiv_i128(p, FX_ONE as i128);
    sat_i128(q)
}

/// Fixed-point quotient. Division by zero is ruled out by contract: callers
/// are responsible for non-degenerate divisors.
pub fn fx_div(a: Fx, b: Fx) -> (r: Fx)
    requires
        b != 0,
    ensures
        r as int == fxdiv(a as int, b as int),
{
    proof {
        lemma_i64_prod_in_i128(a as int, FX_ONE as int);
    }
    let p: i128 = (a as i128) * (FX_ONE as i128);
    let q: i128 = tdiv_i128(p, b as i128);
    sat_i128(q)
}

/// The fixed-point quotient by a positive divisor preserves order of
/// dividends.
pub proof fn lemma_fxdiv_monotone_num(u: int, v: int, b: int)
    requires
        u <= v,
        b > 0,
    ensures
        fxdiv(u, b) <= fxdiv(v, b),
{
    assert(u * (FX_ONE as int) <= v * (FX_ONE as int)) by (nonlinear_arith)
        requires u <= v;
    lemma_tdiv_monotone(u * (FX_ONE as int), v * (FX_ONE as int), b);
    lemma_sat64_monotone(tdiv(u * (FX_ONE as int), b), tdiv(v * (FX_ONE as int), b));
}

/// The scalar divided by a plain (unscaled) integer, truncated and saturated.
pub open spec fn fxdivi(a: int, n: int) -> int
    recommends n != 0,
{
    sat64(tdiv(a, n))
}

/// Division of a scalar by a plain positive integer, as in a polynomial
/// term's constant denominator.
pub fn fx_divi(a: Fx, n: i64) -> (r: Fx)
    requires
        n > 0,
    ensures
        r as int == fxdivi(a as int, n as int),
{
    let q: i128 = tdiv_i128(a as i128, n as i128);
    sat_i128(q)
}

/// Integer square root of a wide unsigned value, by bisection.
fn isqrt_u128(n: u128) -> (r: u128)
    ensures
        r * r <= n,
        n < (r + 1) * (r + 1),
{
    if n == 0 {
        return 0;
    }
    let mut lo: u128 = 0;
    let mut hi: u128 = 0x1_0000_0000_0000_0000u128;
    proof {
        assert((n as int) < (hi as int) * (hi as int)) by (nonlinear_arith)
            requires hi == 0x1_0000_0000_0000_0000u128 && n <= u128::MAX;
    }
    while lo + 1 < hi
        invariant
            lo < hi,
            hi <= 0x1_0000_0000_0000_0000u128,
            (lo as int) * (lo as int) <= n as int,
            (n as int) < (hi as int) * (hi as int),
        decreases hi - lo,
    {
        let mid: u128 = lo + (hi - lo) / 2;
        assert(lo < mid < hi);
        proof {
            assert((mid as int) * (mid as int) <= u128::MAX) by (nonlinear_arith)
                requires mid < 0x1_0000_0000_0000_0000u128;
        }
        if mid * mid <= n {
            lo = mid;
        } else {
            hi = mid;
        }
    }
    lo
}

/// Fixed-point square root of a non-negative scalar.
pub fn fx_sqrt(a: Fx) -> (r: Fx)
    requires
        a >= 0,
    ensures
        r as int == fxsqrt(a as int),
{
    proof {
        assert(FX_ONE as u128 == 65536u128);
        assert((a as u128 as int) * 65536 < 0x1_0000_0000_0000_0000_0000int);
    }
    let n: u128 = (a as u128) * (FX_ONE as u128);
    let s: u128 = isqrt_u128(n);
    proof {
        assert(n as int == (a as int) * 65536);
        assert((n as int) < 0x1_0000_0000_0000_0000_0000int);
        assert((s as int) * (s as int) <= n as int);
        assert(s < 0x1_0000_0000_0000u128) by (nonlinear_arith)
            requires (s as int) * (s as int) <= n as int && (n as int) < 0x1_0000_0000_0000_0000_0000int;
        lemma_isqrt_unique(n as int, s as int);
    }
    s as i64
}

/// The smaller of two scalars.
pub fn fx_min(a: Fx, b: Fx) -> (r: Fx)
    ensures
        r as int == if a <= b { a as int } else { b as int },
{
    if a <= b { a } else { b }
}

} // verus!
