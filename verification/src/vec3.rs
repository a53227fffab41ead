//! Three-component vectors over fixed-point scalars, used interchangeably as
//! points, directions and colors.
//!
//! Every executable operation is pinned to a spec-level mirror written in
//! exact integer arithmetic over the fixed-point representation. The
//! `*_exact` functions are the ideal (unrounded) model of the same algebra;
//! the parallelism and unit-length laws of normalization are proved of that
//! model, where they hold exactly, and of the rounded representation with
//! explicit tolerances (`lemma_unit_sqlen_rounded`,
//! `lemma_unit_cross_rounded`).

use vstd::prelude::*;
use crate::fixed::{
    Fx, FX_ONE, fxadd, fxsub, fxneg, fxmul, fxdiv, fxsqrt, iabs, isqrt, sat64, tdiv,
    fx_add, fx_sub, fx_neg, fx_mul, fx_div, fx_sqrt,
    lemma_isqrt_props, lemma_tdiv_abs_bound, lemma_tdiv_err,
};
use vstd::arithmetic::div_mod::lemma_div_is_ordered_by_denominator;
use crate::fixed::{sat_i128, tdiv_i128, lemma_i64_prod_in_i128};

verus! {

/// A vector of three fixed-point scalars.
#[derive(Clone, Copy, Debug, PartialEq, Eq, Structural)]
pub struct Vec3 {
    pub x: Fx,
    pub y: Fx,
    pub z: Fx,
}

/// Componentwise sum.
pub open spec fn spec_add(a: Vec3, b: Vec3) -> Vec3 {
    Vec3 {
        x: fxadd(a.x as int, b.x as int) as i64,
        y: fxadd(a.y as int, b.y as int) as i64,
        z: fxadd(a.z as int, b.z as int) as i64,
    }
}

/// Componentwise difference.
pub open spec fn spec_sub(a: Vec3, b: Vec3) -> Vec3 {
    Vec3 {
        x: fxsub(a.x as int, b.x as int) as i64,
        y: fxsub(a.y as int, b.y as int) as i64,
        z: fxsub(a.z as int, b.z as int) as i64,
    }
}

/// Componentwise negation.
pub open spec fn spec_neg(a: Vec3) -> Vec3 {
    Vec3 { x: fxneg(a.x as int) as i64, y: fxneg(a.y as int) as i64, z: fxneg(a.z as int) as i64 }
}

/// Componentwise product.
pub open spec fn spec_mul(a: Vec3, b: Vec3) -> Vec3 {
    Vec3 {
        x: fxmul(a.x as int, b.x as int) as i64,
        y: fxmul(a.y as int, b.y as int) as i64,
        z: fxmul(a.z as int, b.z as int) as i64,
    }
}

/// Componentwise quotient.
pub open spec fn spec_div(a: Vec3, b: Vec3) -> Vec3 {
    Vec3 {
        x: fxdiv(a.x as int, b.x as int) as i64,
        y: fxdiv(a.y as int, b.y as int) as i64,
        z: fxdiv(a.z as int, b.z as int) as i64,
    }
}

/// The vector scaled by a scalar.
pub open spec fn spec_scale(a: Vec3, s: int) -> Vec3 {
    Vec3 {
        x: fxmul(a.x as int, s) as i64,
        y: fxmul(a.y as int, s) as i64,
        z: fxmul(a.z as int, s) as i64,
    }
}

/// The vector divided by a scalar.
pub open spec fn spec_div_s(a: Vec3, s: int) -> Vec3 {
    Vec3 {
        x: fxdiv(a.x as int, s) as i64,
        y: fxdiv(a.y as int, s) as i64,
        z: fxdiv(a.z as int, s) as i64,
    }
}

/// The dot product: the three componentwise products at full width, summed,
/// rescaled once and saturated once.
pub open spec fn spec_dot(a: Vec3, b: Vec3) -> int {
    sat64(
        tdiv((a.x as int) * (b.x as int), FX_ONE as int)
        + tdiv((a.y as int) * (b.y as int), FX_ONE as int)
        + tdiv((a.z as int) * (b.z as int), FX_ONE as int),
    )
}

/// The squared Euclidean length.
pub open spec fn spec_sqlen(a: Vec3) -> int {
    spec_dot(a, a)
}

/// The Euclidean length: the fixed-point square root of the squared length.
pub open spec fn spec_len(a: Vec3) -> int {
    fxsqrt(spec_sqlen(a))
}

/// The cross product.
pub open spec fn spec_cross(a: Vec3, b: Vec3) -> Vec3 {
    Vec3 {
        x: fxsub(fxmul(a.y as int, b.z as int), fxmul(a.z as int, b.y as int)) as i64,
        y: fxsub(fxmul(a.z as int, b.x as int), fxmul(a.x as int, b.z as int)) as i64,
        z: fxsub(fxmul(a.x as int, b.y as int), fxmul(a.y as int, b.x as int)) as i64,
    }
}

/// The normalized vector: the vector divided by its length.
pub open spec fn spec_unit(a: Vec3) -> Vec3 {
    spec_div_s(a, spec_len(a))
}

/// The dot product of a vector with itself is non-negative.
pub proof fn lemma_sqlen_nonneg(a: Vec3)
    ensures
        spec_sqlen(a) >= 0,
{
    lemma_sq_tdiv_nonneg(a.x as int);
    lemma_sq_tdiv_nonneg(a.y as int);
    lemma_sq_tdiv_nonneg(a.z as int);
}

proof fn lemma_sq_tdiv_nonneg(x: int)
    ensures
        tdiv(x * x, FX_ONE as int) >= 0,
        tdiv(x * x, FX_ONE as int) == (x * x) / (FX_ONE as int),
{
    assert(x * x >= 0) by (nonlinear_arith);
    assert(iabs(x * x) == x * x);
    vstd::arithmetic::div_mod::lemma_div_pos_is_pos(x * x, FX_ONE as int);
}

/// The zero vector has zero squared length.
pub proof fn lemma_sqlen_zero()
    ensures
        spec_sqlen(Vec3 { x: 0i64, y: 0i64, z: 0i64 }) == 0,
{
    let zv = Vec3 { x: 0i64, y: 0i64, z: 0i64 };
    assert(iabs(0int) == 0);
    vstd::arithmetic::div_mod::lemma_div_of0(FX_ONE as int);
    assert(tdiv(0, FX_ONE as int) == 0);
    assert((zv.x as int) * (zv.x as int) == 0) by (nonlinear_arith)
        requires zv.x == 0i64;
    assert(spec_dot(zv, zv) == sat64(0int + 0 + 0));
}

/// A vector of positive squared length has a positive length.
pub proof fn lemma_len_pos(a: Vec3)
    requires
        spec_sqlen(a) > 0,
    ensures
        spec_len(a) > 0,
{
    let m = spec_sqlen(a);
    let n = m * (FX_ONE as int);
    assert(n >= 65536) by (nonlinear_arith)
        requires m > 0 && n == m * 65536;
    lemma_isqrt_props(n);
    if isqrt(n) == 0 {
        assert(n < (0 + 1) * (0 + 1));
    }
}

impl Vec3 {
    /// A vector from its three components.
    pub fn new(x: Fx, y: Fx, z: Fx) -> (r: Vec3)
        ensures
            r == (Vec3 { x, y, z }),
    {
        Vec3 { x, y, z }
    }

    /// The zero vector, which also stands for the color black.
    pub fn zero() -> (r: Vec3)
        ensures
            r == (Vec3 { x: 0i64, y: 0i64, z: 0i64 }),
    {
        Vec3 { x: 0, y: 0, z: 0 }
    }

    /// The first component.
    pub fn x(&self) -> (r: Fx)
        ensures
            r == self.x,
    {
        self.x
    }

    /// The second component.
    pub fn y(&self) -> (r: Fx)
        ensures
            r == self.y,
    {
        self.y
    }

    /// The third component.
    pub fn z(&self) -> (r: Fx)
        ensures
            r == self.z,
    {
        self.z
    }

    /// Componentwise sum.
    pub fn add(self, rhs: Vec3) -> (r: Vec3)
        ensures
            r == spec_add(self, rhs),
    {
        Vec3 {
            x: fx_add(self.x, rhs.x),
            y: fx_add(self.y, rhs.y),
            z: fx_add(self.z, rhs.z),
        }
    }

    /// Componentwise sum in place.
    pub fn add_assign(&mut self, rhs: Vec3)
        ensures
            *final(self) == spec_add(*old(self), rhs),
    {
        *self = self.add(rhs);
    }

    /// Componentwise difference.
    pub fn sub(self, rhs: Vec3) -> (r: Vec3)
        ensures
            r == spec_sub(self, rhs),
    {
        Vec3 {
            x: fx_sub(self.x, rhs.x),
            y: fx_sub(self.y, rhs.y),
            z: fx_sub(self.z, rhs.z),
        }
    }

    /// Componentwise negation.
    pub fn neg(self) -> (r: Vec3)
        ensures
            r == spec_neg(self),
    {
        Vec3 { x: fx_neg(self.x), y: fx_neg(self.y), z: fx_neg(self.z) }
    }

    /// Componentwise product; colors attenuate componentwise.
    pub fn mul(self, rhs: Vec3) -> (r: Vec3)
        ensures
            r == spec_mul(self, rhs),
    {
        Vec3 {
            x: fx_mul(self.x, rhs.x),
            y: fx_mul(self.y, rhs.y),
            z: fx_mul(self.z, rhs.z),
        }
    }

    /// Componentwise quotient. Zero components in the divisor are ruled out
    /// by contract: callers are responsible for non-degenerate inputs.
    pub fn div(self, rhs: Vec3) -> (r: Vec3)
        requires
            rhs.x != 0,
            rhs.y != 0,
            rhs.z != 0,
        ensures
            r == spec_div(self, rhs),
    {
        Vec3 {
            x: fx_div(self.x, rhs.x),
            y: fx_div(self.y, rhs.y),
            z: fx_div(self.z, rhs.z),
        }
    }

    /// The vector scaled by a scalar.
    pub fn scale(self, s: Fx) -> (r: Vec3)
        ensures
            r == spec_scale(self, s as int),
    {
        Vec3 { x: fx_mul(self.x, s), y: fx_mul(self.y, s), z: fx_mul(self.z, s) }
    }

    /// The vector divided by a non-zero scalar.
    pub fn div_s(self, s: Fx) -> (r: Vec3)
        requires
            s != 0,
        ensures
            r == spec_div_s(self, s as int),
    {
        Vec3 { x: fx_div(self.x, s), y: fx_div(self.y, s), z: fx_div(self.z, s) }
    }

    /// Division by a non-zero scalar in place.
    pub fn div_assign(&mut self, s: Fx)
        requires
            s != 0,
        ensures
            *final(self) == spec_div_s(*old(self), s as int),
    {
        *self = self.div_s(s);
    }

    /// The dot product.
    pub fn dot(&self, other: &Vec3) -> (r: Fx)
        ensures
            r as int == spec_dot(*self, *other),
    {
        proof {
            lemma_i64_prod_in_i128(self.x as int, other.x as int);
            lemma_i64_prod_in_i128(self.y as int, other.y as int);
            lemma_i64_prod_in_i128(self.z as int, other.z as int);
        }
        let px: i128 = (self.x as i128) * (other.x as i128);
        let py: i128 = (self.y as i128) * (other.y as i128);
        let pz: i128 = (self.z as i128) * (other.z as i128);
        let tx: i128 = tdiv_i128(px, FX_ONE as i128);
        let ty: i128 = tdiv_i128(py, FX_ONE as i128);
        let tz: i128 = tdiv_i128(pz, FX_ONE as i128);
        proof {
            lemma_tdiv_abs_bound(px as int, FX_ONE as int, 0x4000_0000_0000_0000_0000_0000_0000_0000int);
            lemma_tdiv_abs_bound(py as int, FX_ONE as int, 0x4000_0000_0000_0000_0000_0000_0000_0000int);
            lemma_tdiv_abs_bound(pz as int, FX_ONE as int, 0x4000_0000_0000_0000_0000_0000_0000_0000int);
        }
        sat_i128(tx + ty + tz)
    }

    /// The squared Euclidean length.
    pub fn squared_length(&self) -> (r: Fx)
        ensures
            r as int == spec_sqlen(*self),
            r >= 0,
    {
        proof {
            lemma_sqlen_nonneg(*self);
        }
        self.dot(self)
    }

    /// The Euclidean length.
    pub fn length(&self) -> (r: Fx)
        ensures
            r as int == spec_len(*self),
    {
        proof {
            lemma_sqlen_nonneg(*self);
        }
        fx_sqrt(self.squared_length())
    }

    /// The vector scaled to unit length. A zero-length vector is ruled out by
    /// contract: callers are responsible for non-degenerate inputs.
    pub fn unit_vector(&self) -> (r: Vec3)
        requires
            spec_sqlen(*self) > 0,
        ensures
            r == spec_unit(*self),
    {
        proof {
            lemma_len_pos(*self);
        }
        let len: Fx = self.length();
        self.div_s(len)
    }

    /// The cross product.
    pub fn cross(&self, other: &Vec3) -> (r: Vec3)
        ensures
            r == spec_cross(*self, *other),
    {
        Vec3 {
            x: fx_sub(fx_mul(self.y, other.z), fx_mul(self.z, other.y)),
            y: fx_sub(fx_mul(self.z, other.x), fx_mul(self.x, other.z)),
            z: fx_sub(fx_mul(self.x, other.y), fx_mul(self.y, other.x)),
        }
    }
}

/// The ideal dot product, in exact arithmetic.
pub open spec fn dot_exact(ax: int, ay: int, az: int, bx: int, by: int, bz: int) -> int {
    ax * bx + ay * by + az * bz
}

/// The first component of the ideal cross product, in exact arithmetic.
pub open spec fn cross_exact_x(ax: int, ay: int, az: int, bx: int, by: int, bz: int) -> int {
    ay * bz - az * by
}

/// The second component of the ideal cross product, in exact arithmetic.
pub open spec fn cross_exact_y(ax: int, ay: int, az: int, bx: int, by: int, bz: int) -> int {
    az * bx - ax * bz
}

/// The third component of the ideal cross product, in exact arithmetic.
pub open spec fn cross_exact_z(ax: int, ay: int, az: int, bx: int, by: int, bz: int) -> int {
    ax * by - ay * bx
}

/// Core rounding analysis behind the parallelism law: one cross component
/// of the normalized vector against its source, with every rounded step
/// named by its remainder, is at most two steps plus the other two source
/// components' magnitudes scaled down by 2^16.
proof fn lemma_cross_round_core(
    xj: int, xk: int,
    uj: int, uk: int,
    len: int,
    m1: int, m2: int,
    cx: int,
)
    requires
        len > 0,
        iabs(len * uj - xj * 65536) < len,
        iabs(len * uk - xk * 65536) < len,
        iabs(65536 * m1 - uj * xk) < 65536,
        iabs(65536 * m2 - uk * xj) < 65536,
        cx == m1 - m2,
    ensures
        iabs(cx) * 65536 <= iabs(xj) + iabs(xk) + 2 * 65536,
{
    let rj = xj * 65536 - len * uj;
    let rk = xk * 65536 - len * uk;
    let s1 = uj * xk - 65536 * m1;
    let s2 = uk * xj - 65536 * m2;
    let aj = iabs(xj);
    let ak = iabs(xk);

    // Exact cancellation: only the remainders survive in the scaled cross
    // component.
    assert(65536 * len * cx == -(xk * rj) + xj * rk - len * (s1 - s2)) by (nonlinear_arith)
        requires
            cx == m1 - m2
            && rj == xj * 65536 - len * uj
            && rk == xk * 65536 - len * uk
            && s1 == uj * xk - 65536 * m1
            && s2 == uk * xj - 65536 * m2;

    // Bound the surviving terms.
    assert(-(ak * len) <= -(xk * rj) <= ak * len) by (nonlinear_arith)
        requires -ak <= xk <= ak && 0 <= ak && -len < rj < len;
    assert(-(aj * len) <= xj * rk <= aj * len) by (nonlinear_arith)
        requires -aj <= xj <= aj && 0 <= aj && -len < rk < len;
    assert(-(2 * 65536 * len) <= len * (s1 - s2) <= 2 * 65536 * len) by (nonlinear_arith)
        requires len > 0 && -65536 < s1 < 65536 && -65536 < s2 < 65536;
    assert(-((aj + ak + 2 * 65536) * len) <= 65536 * len * cx
        <= (aj + ak + 2 * 65536) * len) by (nonlinear_arith)
        requires
            65536 * len * cx == -(xk * rj) + xj * rk - len * (s1 - s2)
            && -(ak * len) <= -(xk * rj) <= ak * len
            && -(aj * len) <= xj * rk <= aj * len
            && -(2 * 65536 * len) <= len * (s1 - s2) <= 2 * 65536 * len;
    assert(iabs(cx) * 65536 <= aj + ak + 2 * 65536) by (nonlinear_arith)
        requires
            len > 0
            && -((aj + ak + 2 * 65536) * len) <= 65536 * len * cx
                <= (aj + ak + 2 * 65536) * len
            && iabs(cx) == (if cx < 0 { -cx } else { cx });
}

/// Normalization preserves direction at the representation too, within
/// rounding: for a vector of length at least one whose components do not
/// exceed about sixteen thousand, each component of the cross product of
/// the normalized vector with its source, scaled by 2^16, is at most two
/// steps plus the other two components' magnitudes — against components of
/// order the vector's size, the cross product is zero at the scale.
pub proof fn lemma_unit_cross_rounded(v: Vec3)
    requires
        iabs(v.x as int) <= 0x4000_0000,
        iabs(v.y as int) <= 0x4000_0000,
        iabs(v.z as int) <= 0x4000_0000,
        spec_sqlen(v) >= FX_ONE as int,
    ensures
        iabs(spec_cross(spec_unit(v), v).x as int) * (FX_ONE as int)
            <= iabs(v.y as int) + iabs(v.z as int) + 2 * (FX_ONE as int),
        iabs(spec_cross(spec_unit(v), v).y as int) * (FX_ONE as int)
            <= iabs(v.z as int) + iabs(v.x as int) + 2 * (FX_ONE as int),
        iabs(spec_cross(spec_unit(v), v).z as int) * (FX_ONE as int)
            <= iabs(v.x as int) + iabs(v.y as int) + 2 * (FX_ONE as int),
{
    let vx = v.x as int;
    let vy = v.y as int;
    let vz = v.z as int;
    let q = spec_sqlen(v);
    let len = spec_len(v);

    // The length is at least one: its square brackets the scaled squared
    // length, which is at least one squared.
    lemma_isqrt_props(q * 65536);
    assert(q * 65536 >= 65536 * 65536);
    assert(len + 1 > 65536) by (nonlinear_arith)
        requires len >= 0 && (len + 1) * (len + 1) > 65536 * 65536;
    assert(len >= 65536);

    // The unit components carry no saturation and leave remainders smaller
    // than the length.
    let ux = tdiv(vx * 65536, len);
    let uy = tdiv(vy * 65536, len);
    let uz = tdiv(vz * 65536, len);
    lemma_tdiv_abs_bound(vx * 65536, len, 0x4000_0000int * 65536);
    lemma_tdiv_abs_bound(vy * 65536, len, 0x4000_0000int * 65536);
    lemma_tdiv_abs_bound(vz * 65536, len, 0x4000_0000int * 65536);
    lemma_div_is_ordered_by_denominator(0x4000_0000int * 65536, 65536, len);
    let u = spec_unit(v);
    assert(u.x as int == ux && u.y as int == uy && u.z as int == uz);
    lemma_tdiv_err(vx * 65536, len);
    lemma_tdiv_err(vy * 65536, len);
    lemma_tdiv_err(vz * 65536, len);

    // The rounded cross products carry no saturation either.
    let m_yz = tdiv(uy * vz, 65536);
    let m_zy = tdiv(uz * vy, 65536);
    let m_zx = tdiv(uz * vx, 65536);
    let m_xz = tdiv(ux * vz, 65536);
    let m_xy = tdiv(ux * vy, 65536);
    let m_yx = tdiv(uy * vx, 65536);
    assert(iabs(uy * vz) <= 0x1000_0000_0000_0000) by (nonlinear_arith)
        requires iabs(uy) <= 0x4000_0000 && iabs(vz) <= 0x4000_0000;
    assert(iabs(uz * vy) <= 0x1000_0000_0000_0000) by (nonlinear_arith)
        requires iabs(uz) <= 0x4000_0000 && iabs(vy) <= 0x4000_0000;
    assert(iabs(uz * vx) <= 0x1000_0000_0000_0000) by (nonlinear_arith)
        requires iabs(uz) <= 0x4000_0000 && iabs(vx) <= 0x4000_0000;
    assert(iabs(ux * vz) <= 0x1000_0000_0000_0000) by (nonlinear_arith)
        requires iabs(ux) <= 0x4000_0000 && iabs(vz) <= 0x4000_0000;
    assert(iabs(ux * vy) <= 0x1000_0000_0000_0000) by (nonlinear_arith)
        requires iabs(ux) <= 0x4000_0000 && iabs(vy) <= 0x4000_0000;
    assert(iabs(uy * vx) <= 0x1000_0000_0000_0000) by (nonlinear_arith)
        requires iabs(uy) <= 0x4000_0000 && iabs(vx) <= 0x4000_0000;
    lemma_tdiv_abs_bound(uy * vz, 65536, 0x1000_0000_0000_0000);
    lemma_tdiv_abs_bound(uz * vy, 65536, 0x1000_0000_0000_0000);
    lemma_tdiv_abs_bound(uz * vx, 65536, 0x1000_0000_0000_0000);
    lemma_tdiv_abs_bound(ux * vz, 65536, 0x1000_0000_0000_0000);
    lemma_tdiv_abs_bound(ux * vy, 65536, 0x1000_0000_0000_0000);
    lemma_tdiv_abs_bound(uy * vx, 65536, 0x1000_0000_0000_0000);
    lemma_tdiv_err(uy * vz, 65536);
    lemma_tdiv_err(uz * vy, 65536);
    lemma_tdiv_err(uz * vx, 65536);
    lemma_tdiv_err(ux * vz, 65536);
    lemma_tdiv_err(ux * vy, 65536);
    lemma_tdiv_err(uy * vx, 65536);
    let cw = spec_cross(u, v);
    assert(cw.x as int == m_yz - m_zy);
    assert(cw.y as int == m_zx - m_xz);
    assert(cw.z as int == m_xy - m_yx);

    lemma_cross_round_core(vy, vz, uy, uz, len, m_yz, m_zy, m_yz - m_zy);
    lemma_cross_round_core(vz, vx, uz, ux, len, m_zx, m_xz, m_zx - m_xz);
    lemma_cross_round_core(vx, vy, ux, uy, len, m_xy, m_yx, m_xy - m_yx);
}

/// Core rounding analysis behind the unit-length law: with every rounded
/// step of the normalization and of the two squared lengths named by its
/// remainder, and the length's square bracketing the scaled squared length,
/// the normalized vector's squared length lands within sixteen steps of
/// one.
proof fn lemma_unit_sqlen_core(
    x1: int, x2: int, x3: int,
    u1: int, u2: int, u3: int,
    len: int,
    t1: int, t2: int, t3: int, w: int,
    q1: int, q2: int, q3: int, q: int,
)
    requires
        len >= 65536,
        iabs(x1) <= len + 3,
        iabs(x2) <= len + 3,
        iabs(x3) <= len + 3,
        iabs(len * u1 - x1 * 65536) < len,
        iabs(len * u2 - x2 * 65536) < len,
        iabs(len * u3 - x3 * 65536) < len,
        iabs(65536 * t1 - u1 * u1) < 65536,
        iabs(65536 * t2 - u2 * u2) < 65536,
        iabs(65536 * t3 - u3 * u3) < 65536,
        w == t1 + t2 + t3,
        iabs(65536 * q1 - x1 * x1) < 65536,
        iabs(65536 * q2 - x2 * x2) < 65536,
        iabs(65536 * q3 - x3 * x3) < 65536,
        q == q1 + q2 + q3,
        len * len <= q * 65536 < (len + 1) * (len + 1),
    ensures
        iabs(w - 65536) <= 16,
{
    let r1 = x1 * 65536 - len * u1;
    let r2 = x2 * 65536 - len * u2;
    let r3 = x3 * 65536 - len * u3;
    let tau1 = u1 * u1 - 65536 * t1;
    let tau2 = u2 * u2 - 65536 * t2;
    let tau3 = u3 * u3 - 65536 * t3;
    let e1 = x1 * x1 - 65536 * q1;
    let e2 = x2 * x2 - 65536 * q2;
    let e3 = x3 * x3 - 65536 * q3;
    let big_t = tau1 + tau2 + tau3;
    let big_e = e1 + e2 + e3;
    let big_p = x1 * r1 + x2 * r2 + x3 * r3;
    let big_r = r1 * r1 + r2 * r2 + r3 * r3;
    let delta = q * 65536 - len * len;
    assert(0 <= delta <= 2 * len) by (nonlinear_arith)
        requires delta == q * 65536 - len * len
            && len * len <= q * 65536 < (len + 1) * (len + 1);

    // Squaring the normalization identity, per component.
    assert(len * len * (u1 * u1) == 65536 * 65536 * (x1 * x1) - 2 * 65536 * (x1 * r1) + r1 * r1)
        by (nonlinear_arith)
        requires len * u1 == x1 * 65536 - r1;
    assert(len * len * (u2 * u2) == 65536 * 65536 * (x2 * x2) - 2 * 65536 * (x2 * r2) + r2 * r2)
        by (nonlinear_arith)
        requires len * u2 == x2 * 65536 - r2;
    assert(len * len * (u3 * u3) == 65536 * 65536 * (x3 * x3) - 2 * 65536 * (x3 * r3) + r3 * r3)
        by (nonlinear_arith)
        requires len * u3 == x3 * 65536 - r3;
    assert(len * len * (u1 * u1 + u2 * u2 + u3 * u3)
        == 65536 * 65536 * (x1 * x1 + x2 * x2 + x3 * x3) - 2 * 65536 * big_p + big_r)
        by (nonlinear_arith)
        requires
            len * len * (u1 * u1) == 65536 * 65536 * (x1 * x1) - 2 * 65536 * (x1 * r1) + r1 * r1
            && len * len * (u2 * u2) == 65536 * 65536 * (x2 * x2) - 2 * 65536 * (x2 * r2) + r2 * r2
            && len * len * (u3 * u3) == 65536 * 65536 * (x3 * x3) - 2 * 65536 * (x3 * r3) + r3 * r3
            && big_p == x1 * r1 + x2 * r2 + x3 * r3
            && big_r == r1 * r1 + r2 * r2 + r3 * r3;

    // The two squared lengths against their quotient sums.
    assert(65536 * w == (u1 * u1 + u2 * u2 + u3 * u3) - big_t);
    assert(x1 * x1 + x2 * x2 + x3 * x3 == 65536 * q + big_e);

    // Assemble: everything but the remainders and the bracketing slack
    // cancels.
    assert(len * len * (65536 * w) == len * len * (u1 * u1 + u2 * u2 + u3 * u3) - (len * len) * big_t)
        by (nonlinear_arith)
        requires 65536 * w == (u1 * u1 + u2 * u2 + u3 * u3) - big_t;
    assert(65536 * 65536 * (x1 * x1 + x2 * x2 + x3 * x3)
        == 65536 * 65536 * (len * len) + 65536 * 65536 * delta + 65536 * 65536 * big_e)
        by (nonlinear_arith)
        requires x1 * x1 + x2 * x2 + x3 * x3 == 65536 * q + big_e
            && 65536 * q == len * len + delta;
    let lhs = len * len * (65536 * w) - 65536 * 65536 * (len * len);
    assert(lhs == 65536 * 65536 * delta + 65536 * 65536 * big_e - 2 * 65536 * big_p + big_r
        - (len * len) * big_t);

    // Bound each surviving term against a share of 65536 len^2.
    assert(0 <= 65536 * 65536 * delta <= 2 * 65536 * (len * len)) by (nonlinear_arith)
        requires 0 <= delta <= 2 * len && len >= 65536;
    assert(-(3 * 65536 * (len * len)) <= 65536 * 65536 * big_e <= 3 * 65536 * (len * len))
        by (nonlinear_arith)
        requires -(3 * 65536) < big_e < 3 * 65536 && len >= 65536;
    assert(iabs(x1 * r1) <= (len + 3) * len) by (nonlinear_arith)
        requires iabs(x1) <= len + 3 && -len < r1 < len && len > 0;
    assert(iabs(x2 * r2) <= (len + 3) * len) by (nonlinear_arith)
        requires iabs(x2) <= len + 3 && -len < r2 < len && len > 0;
    assert(iabs(x3 * r3) <= (len + 3) * len) by (nonlinear_arith)
        requires iabs(x3) <= len + 3 && -len < r3 < len && len > 0;
    assert(-(7 * 65536 * (len * len)) <= 2 * 65536 * big_p <= 7 * 65536 * (len * len))
        by (nonlinear_arith)
        requires -(3 * ((len + 3) * len)) <= big_p <= 3 * ((len + 3) * len) && len >= 65536;
    assert(0 <= r1 * r1 <= len * len) by (nonlinear_arith)
        requires -len < r1 < len;
    assert(0 <= r2 * r2 <= len * len) by (nonlinear_arith)
        requires -len < r2 < len;
    assert(0 <= r3 * r3 <= len * len) by (nonlinear_arith)
        requires -len < r3 < len;
    assert(0 <= big_r <= 65536 * (len * len)) by (nonlinear_arith)
        requires 0 <= big_r <= 3 * (len * len) && len >= 65536;
    assert(-(3 * 65536 * (len * len)) <= (len * len) * big_t <= 3 * 65536 * (len * len))
        by (nonlinear_arith)
        requires -(3 * 65536) < big_t < 3 * 65536 && len * len >= 0;
    assert(-(16 * 65536 * (len * len)) <= lhs <= 16 * 65536 * (len * len)) by (nonlinear_arith)
        requires
            lhs == 65536 * 65536 * delta + 65536 * 65536 * big_e - 2 * 65536 * big_p + big_r
                - (len * len) * big_t
            && 0 <= 65536 * 65536 * delta <= 2 * 65536 * (len * len)
            && -(3 * 65536 * (len * len)) <= 65536 * 65536 * big_e <= 3 * 65536 * (len * len)
            && -(7 * 65536 * (len * len)) <= 2 * 65536 * big_p <= 7 * 65536 * (len * len)
            && 0 <= big_r <= 65536 * (len * len)
            && -(3 * 65536 * (len * len)) <= (len * len) * big_t <= 3 * 65536 * (len * len);

    // Cancel the positive factor.
    assert(iabs(w - 65536) <= 16) by (nonlinear_arith)
        requires
            len * len * (65536 * w) - 65536 * 65536 * (len * len) == lhs
            && -(16 * 65536 * (len * len)) <= lhs <= 16 * 65536 * (len * len)
            && len >= 65536
            && iabs(w - 65536) == (if w - 65536 < 0 { -(w - 65536) } else { w - 65536 });
}

/// Normalization yields unit length at the representation too, within
/// rounding: for a vector of length at least one whose components do not
/// exceed about sixteen thousand, the normalized vector's squared length
/// lands within sixteen steps of one.
pub proof fn lemma_unit_sqlen_rounded(v: Vec3)
    requires
        iabs(v.x as int) <= 0x4000_0000,
        iabs(v.y as int) <= 0x4000_0000,
        iabs(v.z as int) <= 0x4000_0000,
        spec_sqlen(v) >= FX_ONE as int,
    ensures
        iabs(spec_sqlen(spec_unit(v)) - FX_ONE as int) <= 16,
{
    let vx = v.x as int;
    let vy = v.y as int;
    let vz = v.z as int;
    let q = spec_sqlen(v);
    let len = spec_len(v);

    // The squared length is the plain sum of its quotients, far from
    // saturation.
    let q1 = tdiv(vx * vx, 65536);
    let q2 = tdiv(vy * vy, 65536);
    let q3 = tdiv(vz * vz, 65536);
    assert(iabs(vx * vx) <= 0x1000_0000_0000_0000) by (nonlinear_arith)
        requires iabs(vx) <= 0x4000_0000;
    assert(iabs(vy * vy) <= 0x1000_0000_0000_0000) by (nonlinear_arith)
        requires iabs(vy) <= 0x4000_0000;
    assert(iabs(vz * vz) <= 0x1000_0000_0000_0000) by (nonlinear_arith)
        requires iabs(vz) <= 0x4000_0000;
    lemma_tdiv_abs_bound(vx * vx, 65536, 0x1000_0000_0000_0000);
    lemma_tdiv_abs_bound(vy * vy, 65536, 0x1000_0000_0000_0000);
    lemma_tdiv_abs_bound(vz * vz, 65536, 0x1000_0000_0000_0000);
    lemma_tdiv_err(vx * vx, 65536);
    lemma_tdiv_err(vy * vy, 65536);
    lemma_tdiv_err(vz * vz, 65536);
    assert(q == q1 + q2 + q3);

    // The length is at least one and its square brackets the scaled
    // squared length.
    lemma_isqrt_props(q * 65536);
    assert(q * 65536 >= 65536 * 65536);
    assert(len + 1 > 65536) by (nonlinear_arith)
        requires len >= 0 && (len + 1) * (len + 1) > 65536 * 65536;
    assert(len >= 65536);

    // No component can exceed the length by more than a few steps.
    lemma_sq_tdiv_nonneg(vx);
    lemma_sq_tdiv_nonneg(vy);
    lemma_sq_tdiv_nonneg(vz);
    assert(vx * vx < (len + 3) * (len + 3)) by (nonlinear_arith)
        requires vx * vx <= 65536 * q + 65535 && q * 65536 < (len + 1) * (len + 1)
            && len >= 65536;
    assert(vy * vy < (len + 3) * (len + 3)) by (nonlinear_arith)
        requires vy * vy <= 65536 * q + 65535 && q * 65536 < (len + 1) * (len + 1)
            && len >= 65536;
    assert(vz * vz < (len + 3) * (len + 3)) by (nonlinear_arith)
        requires vz * vz <= 65536 * q + 65535 && q * 65536 < (len + 1) * (len + 1)
            && len >= 65536;
    assert(iabs(vx) <= len + 3) by (nonlinear_arith)
        requires vx * vx < (len + 3) * (len + 3) && len >= 0;
    assert(iabs(vy) <= len + 3) by (nonlinear_arith)
        requires vy * vy < (len + 3) * (len + 3) && len >= 0;
    assert(iabs(vz) <= len + 3) by (nonlinear_arith)
        requires vz * vz < (len + 3) * (len + 3) && len >= 0;

    // The unit components carry no saturation and leave their remainders.
    let ux = tdiv(vx * 65536, len);
    let uy = tdiv(vy * 65536, len);
    let uz = tdiv(vz * 65536, len);
    lemma_tdiv_abs_bound(vx * 65536, len, 0x4000_0000int * 65536);
    lemma_tdiv_abs_bound(vy * 65536, len, 0x4000_0000int * 65536);
    lemma_tdiv_abs_bound(vz * 65536, len, 0x4000_0000int * 65536);
    lemma_div_is_ordered_by_denominator(0x4000_0000int * 65536, 65536, len);
    let u = spec_unit(v);
    assert(u.x as int == ux && u.y as int == uy && u.z as int == uz);
    lemma_tdiv_err(vx * 65536, len);
    lemma_tdiv_err(vy * 65536, len);
    lemma_tdiv_err(vz * 65536, len);

    // The normalized vector's squared length, far from saturation.
    let t1 = tdiv(ux * ux, 65536);
    let t2 = tdiv(uy * uy, 65536);
    let t3 = tdiv(uz * uz, 65536);
    assert(iabs(ux * ux) <= 0x1000_0000_0000_0000) by (nonlinear_arith)
        requires iabs(ux) <= 0x4000_0000;
    assert(iabs(uy * uy) <= 0x1000_0000_0000_0000) by (nonlinear_arith)
        requires iabs(uy) <= 0x4000_0000;
    assert(iabs(uz * uz) <= 0x1000_0000_0000_0000) by (nonlinear_arith)
        requires iabs(uz) <= 0x4000_0000;
    lemma_tdiv_abs_bound(ux * ux, 65536, 0x1000_0000_0000_0000);
    lemma_tdiv_abs_bound(uy * uy, 65536, 0x1000_0000_0000_0000);
    lemma_tdiv_abs_bound(uz * uz, 65536, 0x1000_0000_0000_0000);
    lemma_tdiv_err(ux * ux, 65536);
    lemma_tdiv_err(uy * uy, 65536);
    lemma_tdiv_err(uz * uz, 65536);
    let w = spec_sqlen(u);
    assert(w == t1 + t2 + t3);

    lemma_unit_sqlen_core(
        vx, vy, vz,
        ux, uy, uz,
        len,
        t1, t2, t3, w,
        q1, q2, q3, q,
    );
}

/// Normalization yields unit length in the reported length as well: under
/// the same hypotheses, the normalized vector's length lands within nine
/// steps of one.
pub proof fn lemma_unit_len_rounded(v: Vec3)
    requires
        iabs(v.x as int) <= 0x4000_0000,
        iabs(v.y as int) <= 0x4000_0000,
        iabs(v.z as int) <= 0x4000_0000,
        spec_sqlen(v) >= FX_ONE as int,
    ensures
        iabs(spec_len(spec_unit(v)) - FX_ONE as int) <= 9,
{
    lemma_unit_sqlen_rounded(v);
    let w = spec_sqlen(spec_unit(v));
    assert(65520 <= w <= 65552);
    let s0 = spec_len(spec_unit(v));
    lemma_isqrt_props(w * 65536);
    assert(s0 == isqrt(w * 65536));
    assert(65520 * 65536 <= w * 65536 <= 65552 * 65536);
    if s0 >= 65545 {
        assert(false) by (nonlinear_arith)
            requires s0 >= 65545 && s0 * s0 <= w * 65536 && w * 65536 <= 65552 * 65536;
    }
    if s0 <= 65526 {
        assert(false) by (nonlinear_arith)
            requires s0 <= 65526 && s0 >= 0 && w * 65536 < (s0 + 1) * (s0 + 1)
                && 65520 * 65536 <= w * 65536;
    }
}

/// Normalization preserves direction: in exact arithmetic, any scaling of a
/// vector has zero cross product with it, so the normalized vector is
/// parallel to the original.
pub proof fn lemma_scaled_is_parallel(vx: int, vy: int, vz: int, k: int) by (nonlinear_arith)
    ensures
        cross_exact_x(k * vx, k * vy, k * vz, vx, vy, vz) == 0,
        cross_exact_y(k * vx, k * vy, k * vz, vx, vy, vz) == 0,
        cross_exact_z(k * vx, k * vy, k * vz, vx, vy, vz) == 0,
{
}

/// Normalization yields a unit vector: in exact arithmetic, if `l` is the
/// length of `v` (`l * l == dot(v, v)`, `l > 0`) and `u` is `v` divided by
/// `l` exactly (`u * l == v` componentwise), then `u` has unit dot product
/// with itself.
pub proof fn lemma_exact_unit_length(
    vx: int, vy: int, vz: int,
    ux: int, uy: int, uz: int,
    l: int,
) by (nonlinear_arith)
    requires
        l > 0,
        l * l == dot_exact(vx, vy, vz, vx, vy, vz),
        ux * l == vx,
        uy * l == vy,
        uz * l == vz,
    ensures
        dot_exact(ux, uy, uz, ux, uy, uz) == 1,
{
}

} // verus!
