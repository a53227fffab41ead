//! Ray--sphere intersection and the hit record it produces.
//!
//! The stored normal is always oriented to oppose the incoming ray;
//! `front_face` records whether the outward geometric normal already did so
//! (the ray struck the convex side).

use vstd::prelude::*;
use crate::fixed::{
    Fx, FX_ONE, fxadd, fxsub, fxneg, fxmul, fxdiv, fxsqrt, iabs, sat64, tdiv,
    fx_add, fx_sub, fx_neg, fx_mul, fx_div, fx_sqrt,
};
use crate::material::Material;
use crate::ray::{Ray, spec_point_at};
use crate::vec3::{Vec3, spec_sub, spec_neg, spec_div_s, spec_dot, spec_sqlen};

verus! {

/// One ray--surface intersection: the ray parameter of the hit, the hit
/// point, the unit-length normal oriented against the ray, the material of
/// the surface, and whether the convex side was struck.
#[derive(Clone, Copy, Debug, PartialEq, Eq, Structural)]
pub struct HitRecord {
    pub t: Fx,
    pub point: Vec3,
    pub normal: Vec3,
    pub material: Material,
    pub front_face: bool,
}

/// The record built from an accepted root: the normal is the outward normal
/// if that already opposes the ray, else its negation.
pub open spec fn spec_hit_record(
    t: int,
    point: Vec3,
    outward_normal: Vec3,
    material: Material,
    ray: Ray,
) -> HitRecord {
    let front_face = spec_dot(ray.direction, outward_normal) < 0;
    HitRecord {
        t: t as i64,
        point,
        normal: if front_face { outward_normal } else { spec_neg(outward_normal) },
        material,
        front_face,
    }
}

impl HitRecord {
    /// A record at parameter `t` and point `point`, orienting the given
    /// outward normal against the incoming ray.
    pub fn new(
        t: Fx,
        point: Vec3,
        outward_normal: Vec3,
        material: Material,
        ray: &Ray,
    ) -> (r: Self)
        ensures
            r == spec_hit_record(t as int, point, outward_normal, material, *ray),
    {
        let front_face = ray.direction().dot(&outward_normal) < 0;
        let normal = if front_face { outward_normal } else { outward_normal.neg() };
        HitRecord { t, point, normal, material, front_face }
    }
}

/// The dot product is symmetric.
pub proof fn lemma_spec_dot_comm(a: Vec3, b: Vec3)
    ensures
        spec_dot(a, b) == spec_dot(b, a),
{
    assert((a.x as int) * (b.x as int) == (b.x as int) * (a.x as int)) by (nonlinear_arith);
    assert((a.y as int) * (b.y as int) == (b.y as int) * (a.y as int)) by (nonlinear_arith);
    assert((a.z as int) * (b.z as int) == (b.z as int) * (a.z as int)) by (nonlinear_arith);
}

/// The stored normal always opposes the incoming ray: whichever way the
/// outward geometric normal faced, the record's normal has a non-positive
/// dot product with the ray's direction. (Negation saturates at the far end
/// of the scalar range, hence the margin on the outward normal.)
pub proof fn lemma_record_normal_opposes_ray(
    t: int,
    point: Vec3,
    outward: Vec3,
    material: Material,
    ray: Ray,
)
    requires
        outward.x > i64::MIN,
        outward.y > i64::MIN,
        outward.z > i64::MIN,
    ensures
        spec_dot(spec_hit_record(t, point, outward, material, ray).normal, ray.direction) <= 0,
{
    let d = ray.direction;
    lemma_spec_dot_comm(outward, d);
    if spec_dot(d, outward) < 0 {
        // Front face: the outward normal is stored as it is.
    } else {
        // Back face: the stored normal is the negated outward normal, and
        // truncating division carries negation through each term exactly.
        let n = spec_neg(outward);
        assert(n.x as int == -(outward.x as int));
        assert(n.y as int == -(outward.y as int));
        assert(n.z as int == -(outward.z as int));
        lemma_tdiv_neg(outward.x as int, d.x as int);
        lemma_tdiv_neg(outward.y as int, d.y as int);
        lemma_tdiv_neg(outward.z as int, d.z as int);
        lemma_spec_dot_comm(n, d);
    }
}

/// Negating one factor negates the truncated, rescaled product.
proof fn lemma_tdiv_neg(a: int, b: int)
    ensures
        tdiv((-a) * b, FX_ONE as int) == -tdiv(a * b, FX_ONE as int),
{
    assert((-a) * b == -(a * b)) by (nonlinear_arith);
    assert(iabs(-(a * b)) == iabs(a * b));
}

/// A sphere: a center, a radius, and the material of its surface.
#[derive(Clone, Copy, Debug, PartialEq, Eq, Structural)]
pub struct Sphere {
    pub center: Vec3,
    pub radius: Fx,
    pub material: Material,
}

impl Sphere {
    /// A sphere from its center, radius and material.
    pub fn new(center: Vec3, radius: Fx, material: Material) -> (r: Self)
        ensures
            r == (Sphere { center, radius, material }),
    {
        Sphere { center, radius, material }
    }
}

/// The accepted root of the ray--sphere quadratic inside the open interval
/// `(t_min, t_max)`: with `oc` from center to ray origin, `a = d.d`,
/// `b = oc.d`, `c = oc.oc - r^2` (the factor of two is already cancelled),
/// and discriminant `b^2 - a c`, the nearer root `(-b - sqrt(disc)) / a` is
/// preferred, then the farther; outside the interval there is no hit.
pub open spec fn spec_sphere_root(s: Sphere, ray: Ray, t_min: int, t_max: int) -> Option<int> {
    let oc = spec_sub(ray.origin, s.center);
    let a = spec_dot(ray.direction, ray.direction);
    let b = spec_dot(oc, ray.direction);
    let c = fxsub(spec_dot(oc, oc), fxmul(s.radius as int, s.radius as int));
    let disc = fxsub(fxmul(b, b), fxmul(a, c));
    if disc > 0 {
        let sq = fxsqrt(disc);
        let r1 = fxdiv(fxsub(fxneg(b), sq), a);
        let r2 = fxdiv(fxadd(fxneg(b), sq), a);
        if t_min < r1 && r1 < t_max {
            Some(r1)
        } else if t_min < r2 && r2 < t_max {
            Some(r2)
        } else {
            None
        }
    } else {
        None
    }
}

/// The record a sphere yields at an accepted root `t`: the hit point, and
/// the outward normal `(point - center) / radius`, oriented against the ray.
pub open spec fn spec_record_at(s: Sphere, ray: Ray, t: int) -> HitRecord {
    let point = spec_point_at(ray, t);
    let outward = spec_div_s(spec_sub(point, s.center), s.radius as int);
    spec_hit_record(t, point, outward, s.material, ray)
}

/// The full result of a sphere intersection query.
pub open spec fn spec_sphere_hit(s: Sphere, ray: Ray, t_min: int, t_max: int) -> Option<HitRecord> {
    match spec_sphere_root(s, ray, t_min, t_max) {
        Some(t) => Some(spec_record_at(s, ray, t)),
        None => None,
    }
}

impl Sphere {
    /// The nearest intersection of the ray with this sphere strictly inside
    /// `(t_min, t_max)`, if any. A degenerate ray direction or a zero radius
    /// is ruled out by contract: scene construction is assumed valid.
    ///
    /// The record is the exact fixed-point evaluation of its formulas: the
    /// parameter, point and normal are each pinned by the contract. How far
    /// the point lies from the ideal sphere surface, and the normal's
    /// length from one, follow the representation's rounding and are left
    /// unspecified — for directions near the bottom of the scale no uniform
    /// bound holds.
    pub fn hit(&self, ray: &Ray, t_min: Fx, t_max: Fx) -> (r: Option<HitRecord>)
        requires
            spec_sqlen(ray.direction) > 0,
            self.radius != 0,
        ensures
            r == spec_sphere_hit(*self, *ray, t_min as int, t_max as int),
    {
        let oc: Vec3 = ray.origin().sub(self.center);
        let a: Fx = ray.direction().dot(ray.direction());
        let b: Fx = oc.dot(ray.direction());
        let c: Fx = fx_sub(oc.dot(&oc), fx_mul(self.radius, self.radius));
        let discriminant: Fx = fx_sub(fx_mul(b, b), fx_mul(a, c));
        if discriminant > 0 {
            let sq: Fx = fx_sqrt(discriminant);
            let root1: Fx = fx_div(fx_sub(fx_neg(b), sq), a);
            if root1 < t_max && root1 > t_min {
                let point: Vec3 = ray.point_at_parameter(&root1);
                let outward: Vec3 = point.sub(self.center).div_s(self.radius);
                return Some(HitRecord::new(root1, point, outward, self.material, ray));
            }
            let root2: Fx = fx_div(fx_add(fx_neg(b), sq), a);
            if root2 < t_max && root2 > t_min {
                let point: Vec3 = ray.point_at_parameter(&root2);
                let outward: Vec3 = point.sub(self.center).div_s(self.radius);
                return Some(HitRecord::new(root2, point, outward, self.material, ray));
            }
            None
        } else {
            None
        }
    }
}

} // verus!
