//! Surface materials and their scattering rules.
//!
//! A material is a closed tagged variant: diffuse (Lambertian), reflective
//! (Metal, with a fuzz radius), or refractive (Dielectric, with a refractive
//! index). Scattering is a pure function of the incoming ray, the hit record
//! and the random draws handed in by the caller, so its result is pinned
//! exactly; the random source itself stays outside.

use vstd::prelude::*;
use crate::fixed::{
    Fx, FX_ONE, fxadd, fxsub, fxneg, fxmul, fxdiv, fxsqrt, iabs, sat64, tdiv,
    fx_add, fx_sub, fx_neg, fx_mul, fx_div, fx_sqrt, fx_min,
    lemma_tdiv_abs_bound, lemma_tdiv_monotone, lemma_sat64_monotone,
    lemma_fxmul_monotone_nonneg, lemma_fxmul_unit, lemma_tdiv_err, lemma_tdiv_multiple,
};
use vstd::arithmetic::div_mod::{lemma_div_pos_is_pos, lemma_div_multiples_vanish};
use crate::vec3::{
    Vec3, spec_add, spec_sub, spec_neg, spec_scale, spec_dot, spec_sqlen, spec_unit,
    dot_exact, lemma_sqlen_zero,
};
use crate::hittable::HitRecord;
use crate::ray::Ray;
use crate::rng::draw_symmetric;

verus! {

/// A diffuse surface that scatters into the hemisphere around the normal.
#[derive(Clone, Copy, Debug, PartialEq, Eq, Structural)]
pub struct Lambertian {
    pub albedo: Vec3,
}

impl Lambertian {
    /// A diffuse material with the given reflectance color.
    pub fn new(albedo: &Vec3) -> (r: Self)
        ensures
            r.albedo == *albedo,
    {
        Self { albedo: *albedo }
    }
}

/// A reflective surface; `fuzz` perturbs the mirror direction.
#[derive(Clone, Copy, Debug, PartialEq, Eq, Structural)]
pub struct Metal {
    pub albedo: Vec3,
    pub fuzz: Fx,
}

impl Metal {
    /// A reflective material; a fuzz radius above one is clamped to one.
    pub fn new(albedo: &Vec3, fuzz: Fx) -> (r: Self)
        ensures
            r.albedo == *albedo,
            r.fuzz == if fuzz < FX_ONE { fuzz } else { FX_ONE },
    {
        Self {
            albedo: *albedo,
            fuzz: if fuzz < FX_ONE { fuzz } else { FX_ONE },
        }
    }
}

/// A refractive surface with the given index of refraction.
#[derive(Clone, Copy, Debug, PartialEq, Eq, Structural)]
pub struct Dielectric {
    pub ir: Fx,
}

impl Dielectric {
    /// A refractive material with the given index of refraction.
    pub fn new(ir: Fx) -> (r: Self)
        ensures
            r.ir == ir,
    {
        Dielectric { ir }
    }
}

/// A surface material: one of the three scattering rules.
#[derive(Clone, Copy, Debug, PartialEq, Eq, Structural)]
pub enum Material {
    Lambertian(Lambertian),
    Metal(Metal),
    Dielectric(Dielectric),
}

/// The mirror image of `v` about the plane normal to `n`:
/// `v - 2 (v . n) n`.
pub open spec fn spec_reflect(v: Vec3, n: Vec3) -> Vec3 {
    spec_sub(v, spec_scale(n, fxmul(2 * FX_ONE as int, spec_dot(v, n))))
}

/// Mirror reflection of a vector about a surface normal.
pub fn reflect(vector: &Vec3, normal: &Vec3) -> (r: Vec3)
    ensures
        r == spec_reflect(*vector, *normal),
{
    let d: Fx = vector.dot(normal);
    let k: Fx = fx_mul(2 * FX_ONE, d);
    vector.sub(normal.scale(k))
}

/// Snell refraction of a direction `uv` at a surface with normal `n`, for
/// the given ratio of refractive indices.
pub open spec fn spec_refract(uv: Vec3, n: Vec3, eta: int) -> Vec3 {
    let cos_theta = fxneg(spec_dot(uv, n));
    let perp = spec_scale(spec_add(uv, spec_scale(n, cos_theta)), eta);
    let w = fxsub(FX_ONE as int, spec_sqlen(perp));
    let aw = if w < 0 { fxneg(w) } else { w };
    spec_add(perp, spec_scale(n, fxneg(fxsqrt(aw))))
}

/// Refraction of a direction at a surface, after Snell's law: the
/// perpendicular part is scaled by the index ratio, and the parallel part is
/// sized to keep the result near unit length.
pub fn refract(uv: &Vec3, n: &Vec3, etai_over_etat: Fx) -> (r: Vec3)
    ensures
        r == spec_refract(*uv, *n, etai_over_etat as int),
{
    let cos_theta: Fx = fx_neg(uv.dot(n));
    let r_out_perp: Vec3 = uv.add(n.scale(cos_theta)).scale(etai_over_etat);
    let w: Fx = fx_sub(FX_ONE, r_out_perp.squared_length());
    let aw: Fx = if w < 0 { fx_neg(w) } else { w };
    let r_out_parallel: Vec3 = n.scale(fx_neg(fx_sqrt(aw)));
    r_out_perp.add(r_out_parallel)
}

/// The fifth power, associated as two squarings and a final factor.
pub open spec fn spec_pow5(x: int) -> int {
    fxmul(fxmul(fxmul(x, x), fxmul(x, x)), x)
}

/// Schlick's base reflectance at normal incidence:
/// `((1 - ior) / (1 + ior))^2`.
pub open spec fn spec_r0(ri: int) -> int {
    let q = fxdiv(fxsub(FX_ONE as int, ri), fxadd(FX_ONE as int, ri));
    fxmul(q, q)
}

/// Schlick's reflectance approximation:
/// `r0 + (1 - r0) (1 - cos)^5`.
pub open spec fn spec_reflectance(cosine: int, ri: int) -> int {
    let r0 = spec_r0(ri);
    fxadd(r0, fxmul(fxsub(FX_ONE as int, r0), spec_pow5(fxsub(FX_ONE as int, cosine))))
}

impl Dielectric {
    /// Schlick's approximation for the reflectance of a dielectric at the
    /// given cosine of incidence.
    pub fn reflectance(cosine: Fx, ref_idx: Fx) -> (r: Fx)
        requires
            ref_idx >= 0,
        ensures
            r as int == spec_reflectance(cosine as int, ref_idx as int),
    {
        let denom: Fx = fx_add(FX_ONE, ref_idx);
        let q: Fx = fx_div(fx_sub(FX_ONE, ref_idx), denom);
        let r0: Fx = fx_mul(q, q);
        let x: Fx = fx_sub(FX_ONE, cosine);
        let p2: Fx = fx_mul(x, x);
        let p4: Fx = fx_mul(p2, p2);
        let p5: Fx = fx_mul(p4, x);
        fx_add(r0, fx_mul(fx_sub(FX_ONE, r0), p5))
    }
}

/// The base reflectance lies between zero and one for a non-negative index.
pub proof fn lemma_r0_unit(ri: int)
    requires
        0 <= ri <= i64::MAX,
    ensures
        0 <= spec_r0(ri) <= FX_ONE as int,
{
    let s = FX_ONE as int;
    let bb = fxadd(s, ri);
    assert(s <= bb <= i64::MAX);
    assert(iabs(s - ri) <= bb);
    assert(iabs((s - ri) * s) <= bb * s) by (nonlinear_arith)
        requires iabs(s - ri) <= bb && s == 65536 && bb >= 65536;
    lemma_tdiv_abs_bound((s - ri) * s, bb, bb * s);
    assert((bb * s) / bb == s) by {
        lemma_div_multiples_vanish(s, bb);
        assert(bb * s == s * bb) by (nonlinear_arith);
    }
    let q = fxdiv(s - ri, bb);
    assert(iabs(q) <= s);
    assert(0 <= q * q <= s * s) by (nonlinear_arith)
        requires iabs(q) <= s;
    lemma_div_pos_is_pos(q * q, s);
    lemma_tdiv_monotone(q * q, s * s, s);
    assert((s * s) / s == s) by {
        lemma_div_multiples_vanish(s, s);
        assert(s * s == s * s) by (nonlinear_arith);
    }
    assert(fxsub(s, ri) == s - ri);
}

/// Exactly at straight-on incidence the reflectance is the base reflectance:
/// `reflectance(1, ior) == r0`.
pub proof fn lemma_reflectance_at_one(ri: int)
    requires
        0 <= ri <= i64::MAX,
    ensures
        spec_reflectance(FX_ONE as int, ri) == spec_r0(ri),
{
    let s = FX_ONE as int;
    lemma_r0_unit(ri);
    let r0 = spec_r0(ri);
    assert(fxsub(s, s) == 0);
    assert(tdiv(0, s) == 0) by {
        assert(iabs(0int) == 0);
        vstd::arithmetic::div_mod::lemma_div_of0(s);
    }
    assert(fxmul(0, 0) == 0);
    assert(spec_pow5(0) == 0);
    assert(fxsub(s, r0) * 0 == 0) by (nonlinear_arith);
    assert(fxmul(fxsub(s, r0), 0) == 0);
    assert(fxadd(r0, 0) == r0);
}

/// Reflectance is monotone: as the cosine of incidence falls toward zero
/// (grazing angles), the reflectance does not decrease.
pub proof fn lemma_reflectance_monotone(c1: int, c2: int, ri: int)
    requires
        0 <= c1 <= c2 <= FX_ONE as int,
        0 <= ri <= i64::MAX,
    ensures
        spec_reflectance(c1, ri) >= spec_reflectance(c2, ri),
{
    let s = FX_ONE as int;
    lemma_r0_unit(ri);
    let r0 = spec_r0(ri);
    let x1 = fxsub(s, c1);
    let x2 = fxsub(s, c2);
    assert(x1 == s - c1 && x2 == s - c2);
    assert(0 <= x2 <= x1 <= s);
    lemma_fxmul_unit(x1, x1);
    lemma_fxmul_unit(x2, x2);
    lemma_fxmul_monotone_nonneg(x2, x2, x1, x1);
    lemma_fxmul_monotone_nonneg(fxmul(x2, x2), fxmul(x2, x2), fxmul(x1, x1), fxmul(x1, x1));
    lemma_fxmul_unit(fxmul(x1, x1), fxmul(x1, x1));
    lemma_fxmul_unit(fxmul(x2, x2), fxmul(x2, x2));
    lemma_fxmul_monotone_nonneg(
        fxmul(fxmul(x2, x2), fxmul(x2, x2)), x2,
        fxmul(fxmul(x1, x1), fxmul(x1, x1)), x1,
    );
    lemma_fxmul_unit(fxmul(fxmul(x1, x1), fxmul(x1, x1)), x1);
    lemma_fxmul_unit(fxmul(fxmul(x2, x2), fxmul(x2, x2)), x2);
    let p1 = spec_pow5(x1);
    let p2 = spec_pow5(x2);
    assert(0 <= p2 <= p1 <= s);
    assert(0 <= s - r0 <= s);
    assert(fxsub(s, r0) == s - r0);
    lemma_fxmul_monotone_nonneg(s - r0, p2, s - r0, p1);
    lemma_fxmul_unit(s - r0, p1);
    lemma_sat64_monotone(r0 + fxmul(s - r0, p2), r0 + fxmul(s - r0, p1));
}

/// A color whose components lie between zero (black) and one (full).
pub open spec fn color_wf(c: Vec3) -> bool {
    &&& 0 <= c.x <= FX_ONE
    &&& 0 <= c.y <= FX_ONE
    &&& 0 <= c.z <= FX_ONE
}

/// A well-formed material: albedos are colors, fuzz lies in `[0, 1]`, and a
/// refractive index is positive.
pub open spec fn material_wf(m: Material) -> bool {
    match m {
        Material::Lambertian(l) => color_wf(l.albedo),
        Material::Metal(mm) => color_wf(mm.albedo) && 0 <= mm.fuzz <= FX_ONE,
        Material::Dielectric(d) => d.ir > 0,
    }
}

/// A random point strictly inside the unit ball, by rejection from the
/// cube. The attempt budget is bounded so the function terminates; after
/// it, the center is returned, which lies in the ball.
pub fn random_in_uint_sphere(rng: &mut rand::rngs::StdRng) -> (r: Vec3)
    ensures
        spec_sqlen(r) < FX_ONE as int,
{
    let mut tries: usize = 0;
    while tries < 64
        invariant
            tries <= 64,
        decreases 64 - tries,
    {
        let p = Vec3::new(
            draw_symmetric(rng),
            draw_symmetric(rng),
            draw_symmetric(rng),
        );
        if p.squared_length() < FX_ONE {
            return p;
        }
        tries = tries + 1;
    }
    proof {
        lemma_sqlen_zero();
    }
    Vec3::zero()
}

/// Diffuse scatter: the target direction is the normal plus the random ball
/// point; a degenerate sum falls back to the normal itself. The albedo is
/// the attenuation; a diffuse surface never absorbs.
pub open spec fn spec_scatter_lambertian(l: Lambertian, rec: HitRecord, rand_ball: Vec3) -> (Vec3, Ray) {
    let target0 = spec_add(rec.normal, rand_ball);
    let target = if spec_sqlen(target0) == 0 { rec.normal } else { target0 };
    (l.albedo, Ray { origin: rec.point, direction: target })
}

/// Metal scatter: the unit incoming direction is mirrored about the normal
/// and perturbed by `fuzz` times the random ball point; a perturbed ray
/// pushed back into the surface is absorbed.
pub open spec fn spec_scatter_metal(m: Metal, ray_in: Ray, rec: HitRecord, rand_ball: Vec3) -> Option<(Vec3, Ray)> {
    let reflected = spec_reflect(spec_unit(ray_in.direction), rec.normal);
    let dir = spec_add(reflected, spec_scale(rand_ball, m.fuzz as int));
    if spec_dot(dir, rec.normal) > 0 {
        Some((m.albedo, Ray { origin: rec.point, direction: dir }))
    } else {
        None
    }
}

/// Dielectric scatter: reflect when Snell's law admits no real refraction
/// (total internal reflection) or when the uniform draw falls below the
/// Schlick reflectance; refract otherwise. Glass absorbs nothing: the
/// attenuation is white. A cosine pushed past one by rounding yields a zero
/// squared sine, where exact arithmetic gives no real sine at all.
pub open spec fn spec_scatter_dielectric(d: Dielectric, ray_in: Ray, rec: HitRecord, rand_u: int) -> (Vec3, Ray) {
    let ratio = if rec.front_face { fxdiv(FX_ONE as int, d.ir as int) } else { d.ir as int };
    let unit_dir = spec_unit(ray_in.direction);
    let cos0 = spec_dot(spec_neg(unit_dir), rec.normal);
    let cos_theta = if cos0 <= FX_ONE as int { cos0 } else { FX_ONE as int };
    let s2 = fxsub(FX_ONE as int, fxmul(cos_theta, cos_theta));
    let s2c = if s2 < 0 { 0 } else { s2 };
    let sin_theta = fxsqrt(s2c);
    let cannot_refract = fxmul(ratio, sin_theta) > FX_ONE as int;
    let dir = if cannot_refract || spec_reflectance(cos_theta, ratio) > rand_u {
        spec_reflect(unit_dir, rec.normal)
    } else {
        spec_refract(unit_dir, rec.normal, ratio)
    };
    ((Vec3 { x: FX_ONE, y: FX_ONE, z: FX_ONE }), Ray { origin: rec.point, direction: dir })
}

/// The scatter rule of a material, as a pure function of the incoming ray,
/// the hit record and the random draws.
pub open spec fn spec_scatter(m: Material, ray_in: Ray, rec: HitRecord, rand_ball: Vec3, rand_u: int) -> Option<(Vec3, Ray)> {
    match m {
        Material::Lambertian(l) => Some(spec_scatter_lambertian(l, rec, rand_ball)),
        Material::Metal(mm) => spec_scatter_metal(mm, ray_in, rec, rand_ball),
        Material::Dielectric(d) => Some(spec_scatter_dielectric(d, ray_in, rec, rand_u)),
    }
}

impl Lambertian {
    /// Diffuse scatter; never absorbs.
    pub fn scatter(&self, _ray_in: &Ray, hit_record: &HitRecord, rand_ball: Vec3) -> (r: Option<(Vec3, Ray)>)
        ensures
            r == Some(spec_scatter_lambertian(*self, *hit_record, rand_ball)),
    {
        let target0 = hit_record.normal.add(rand_ball);
        let target = if target0.squared_length() == 0 { hit_record.normal } else { target0 };
        let scattered = Ray::new(hit_record.point, target);
        Some((self.albedo, scattered))
    }
}

impl Metal {
    /// Fuzzed mirror scatter; absorbs when the perturbed direction points
    /// into the surface.
    pub fn scatter(&self, ray_in: &Ray, hit_record: &HitRecord, rand_ball: Vec3) -> (r: Option<(Vec3, Ray)>)
        requires
            spec_sqlen(ray_in.direction) > 0,
        ensures
            r == spec_scatter_metal(*self, *ray_in, *hit_record, rand_ball),
    {
        let reflected = reflect(&ray_in.direction().unit_vector(), &hit_record.normal);
        let scattered = Ray::new(hit_record.point, reflected.add(rand_ball.scale(self.fuzz)));
        if scattered.direction().dot(&hit_record.normal) > 0 {
            Some((self.albedo, scattered))
        } else {
            None
        }
    }
}

impl Dielectric {
    /// Probabilistic reflect-or-refract scatter; never absorbs.
    pub fn scatter(&self, ray_in: &Ray, hit_record: &HitRecord, rand_u: Fx) -> (r: Option<(Vec3, Ray)>)
        requires
            spec_sqlen(ray_in.direction) > 0,
            self.ir > 0,
        ensures
            r == Some(spec_scatter_dielectric(*self, *ray_in, *hit_record, rand_u as int)),
    {
        let refraction_ratio: Fx = if hit_record.front_face {
            proof {
                lemma_div_pos_is_pos(65536int * 65536, self.ir as int);
            }
            fx_div(FX_ONE, self.ir)
        } else {
            self.ir
        };
        let unit_direction = ray_in.direction().unit_vector();
        let cos0: Fx = unit_direction.neg().dot(&hit_record.normal);
        let cos_theta: Fx = fx_min(cos0, FX_ONE);
        let s2: Fx = fx_sub(FX_ONE, fx_mul(cos_theta, cos_theta));
        let s2c: Fx = if s2 < 0 { 0 } else { s2 };
        let sin_theta: Fx = fx_sqrt(s2c);
        let cannot_refract = fx_mul(refraction_ratio, sin_theta) > FX_ONE;
        let direction: Vec3 = if cannot_refract
            || Dielectric::reflectance(cos_theta, refraction_ratio) > rand_u {
            reflect(&unit_direction, &hit_record.normal)
        } else {
            refract(&unit_direction, &hit_record.normal, refraction_ratio)
        };
        Some((
            Vec3::new(FX_ONE, FX_ONE, FX_ONE),
            Ray::new(hit_record.point, direction),
        ))
    }
}

impl Material {
    /// Scatter the incoming ray at a hit on this material. The random draws
    /// are explicit arguments — a ball point for the diffuse and fuzzed
    /// rules, a uniform scalar for the dielectric rule — so the result is a
    /// pure function of its inputs.
    pub fn scatter(&self, ray_in: &Ray, hit_record: &HitRecord, rand_ball: Vec3, rand_u: Fx) -> (r: Option<(Vec3, Ray)>)
        requires
            spec_sqlen(ray_in.direction) > 0,
            material_wf(*self),
        ensures
            r == spec_scatter(*self, *ray_in, *hit_record, rand_ball, rand_u as int),
    {
        match self {
            Material::Lambertian(l) => l.scatter(ray_in, hit_record, rand_ball),
            Material::Metal(m) => m.scatter(ray_in, hit_record, rand_ball),
            Material::Dielectric(d) => d.scatter(ray_in, hit_record, rand_u),
        }
    }
}

/// Whatever the draws, a well-formed material attenuates without gain: a
/// scattered ray's attenuation is a color with components between zero and
/// one. Diffuse and reflective rules pass their albedo through; glass
/// passes white.
pub proof fn lemma_scatter_attenuation_is_color(
    m: Material,
    ray_in: Ray,
    rec: HitRecord,
    rand_ball: Vec3,
    rand_u: int,
)
    requires
        material_wf(m),
    ensures
        match spec_scatter(m, ray_in, rec, rand_ball, rand_u) {
            Some(pair) => color_wf(pair.0),
            None => true,
        },
{
}

/// Reflection flips the aligned component: in exact arithmetic, for a unit
/// normal `n`, the reflected vector's dot product with `n` is the negation
/// of the incoming vector's.
pub proof fn lemma_reflect_exact_dot(
    vx: int, vy: int, vz: int,
    nx: int, ny: int, nz: int,
) by (nonlinear_arith)
    requires
        dot_exact(nx, ny, nz, nx, ny, nz) == 1,
    ensures
        ({
            let d = dot_exact(vx, vy, vz, nx, ny, nz);
            dot_exact(vx - 2 * d * nx, vy - 2 * d * ny, vz - 2 * d * nz, nx, ny, nz) == -d
        }),
{
}

/// Core rounding analysis behind the reflection law at the representation:
/// each rounded step of one reflected dot product is named with its
/// remainder, and the outgoing dot product then misses the negation of the
/// incoming one by at most twelve steps plus twenty-two parts in 2^16 of
/// its magnitude.
proof fn lemma_reflect_round_core(
    vx: int, vy: int, vz: int,
    nx: int, ny: int, nz: int,
    t1: int, t2: int, t3: int, d: int,
    mx: int, my: int, mz: int,
    rx: int, ry: int, rz: int,
    u1: int, u2: int, u3: int, big_r: int,
    tn1: int, tn2: int, tn3: int,
)
    requires
        iabs(nx) <= 131072,
        iabs(ny) <= 131072,
        iabs(nz) <= 131072,
        iabs(65536 * t1 - vx * nx) < 65536,
        iabs(65536 * t2 - vy * ny) < 65536,
        iabs(65536 * t3 - vz * nz) < 65536,
        d == t1 + t2 + t3,
        iabs(65536 * mx - nx * (2 * d)) < 65536,
        iabs(65536 * my - ny * (2 * d)) < 65536,
        iabs(65536 * mz - nz * (2 * d)) < 65536,
        rx == vx - mx,
        ry == vy - my,
        rz == vz - mz,
        iabs(65536 * u1 - rx * nx) < 65536,
        iabs(65536 * u2 - ry * ny) < 65536,
        iabs(65536 * u3 - rz * nz) < 65536,
        big_r == u1 + u2 + u3,
        iabs(65536 * tn1 - nx * nx) < 65536,
        iabs(65536 * tn2 - ny * ny) < 65536,
        iabs(65536 * tn3 - nz * nz) < 65536,
        iabs((tn1 + tn2 + tn3) - 65536) <= 8,
    ensures
        iabs(big_r + d) * 65536 <= 12 * 65536 + 22 * iabs(d),
{
    let e1x = vx * nx - 65536 * t1;
    let e1y = vy * ny - 65536 * t2;
    let e1z = vz * nz - 65536 * t3;
    let dx = nx * (2 * d) - 65536 * mx;
    let dy = ny * (2 * d) - 65536 * my;
    let dz = nz * (2 * d) - 65536 * mz;
    let e3x = rx * nx - 65536 * u1;
    let e3y = ry * ny - 65536 * u2;
    let e3z = rz * nz - 65536 * u3;
    let e0x = nx * nx - 65536 * tn1;
    let e0y = ny * ny - 65536 * tn2;
    let e0z = nz * nz - 65536 * tn3;
    let gamma = (tn1 + tn2 + tn3) - 65536;

    // Per component, in the scaled world: the reflected product is the
    // incoming one minus twice the aligned share, up to the remainders.
    assert(65536 * (rx * nx) == 65536 * (vx * nx) - 2 * d * (nx * nx) + dx * nx) by (nonlinear_arith)
        requires rx == vx - mx && 65536 * mx == nx * (2 * d) - dx;
    assert(65536 * (ry * ny) == 65536 * (vy * ny) - 2 * d * (ny * ny) + dy * ny) by (nonlinear_arith)
        requires ry == vy - my && 65536 * my == ny * (2 * d) - dy;
    assert(65536 * (rz * nz) == 65536 * (vz * nz) - 2 * d * (nz * nz) + dz * nz) by (nonlinear_arith)
        requires rz == vz - mz && 65536 * mz == nz * (2 * d) - dz;

    // The squared-length terms, split into their quotients and remainders.
    assert(2 * d * (nx * nx) == 2 * d * (65536 * tn1) + 2 * d * e0x) by (nonlinear_arith)
        requires e0x == nx * nx - 65536 * tn1;
    assert(2 * d * (ny * ny) == 2 * d * (65536 * tn2) + 2 * d * e0y) by (nonlinear_arith)
        requires e0y == ny * ny - 65536 * tn2;
    assert(2 * d * (nz * nz) == 2 * d * (65536 * tn3) + 2 * d * e0z) by (nonlinear_arith)
        requires e0z == nz * nz - 65536 * tn3;
    assert(2 * d * (65536 * tn1) + 2 * d * (65536 * tn2) + 2 * d * (65536 * tn3)
        == 2 * d * 65536 * (65536 + gamma)) by (nonlinear_arith)
        requires tn1 + tn2 + tn3 == 65536 + gamma;
    assert(2 * d * e0x + 2 * d * e0y + 2 * d * e0z == 2 * d * (e0x + e0y + e0z)) by (nonlinear_arith);

    // The two dot products, scaled.
    assert(rx * nx + ry * ny + rz * nz == 65536 * big_r + (e3x + e3y + e3z));
    assert(vx * nx + vy * ny + vz * nz == 65536 * d + (e1x + e1y + e1z));
    let ee1 = e1x + e1y + e1z;
    let ee3 = e3x + e3y + e3z;
    let dd_sum = dx * nx + dy * ny + dz * nz;
    let ee0 = e0x + e0y + e0z;
    assert(65536 * (65536 * big_r + ee3)
        == 65536 * (65536 * d + ee1) - 2 * d * 65536 * (65536 + gamma) - 2 * d * ee0 + dd_sum)
        by (nonlinear_arith)
        requires
            rx * nx + ry * ny + rz * nz == 65536 * big_r + ee3
            && vx * nx + vy * ny + vz * nz == 65536 * d + ee1
            && 65536 * (rx * nx) == 65536 * (vx * nx) - 2 * d * (nx * nx) + dx * nx
            && 65536 * (ry * ny) == 65536 * (vy * ny) - 2 * d * (ny * ny) + dy * ny
            && 65536 * (rz * nz) == 65536 * (vz * nz) - 2 * d * (nz * nz) + dz * nz
            && 2 * d * (nx * nx) + 2 * d * (ny * ny) + 2 * d * (nz * nz)
                == 2 * d * 65536 * (65536 + gamma) + 2 * d * ee0
            && dd_sum == dx * nx + dy * ny + dz * nz;

    // Everything but the rounding terms cancels.
    let x = 65536 * ee1 - 65536 * ee3 - 2 * d * 65536 * gamma - 2 * d * ee0 + dd_sum;
    assert(65536 * 65536 * (big_r + d) == x) by (nonlinear_arith)
        requires 65536 * (65536 * big_r + ee3)
            == 65536 * (65536 * d + ee1) - 2 * d * 65536 * (65536 + gamma) - 2 * d * ee0 + dd_sum
            && x == 65536 * ee1 - 65536 * ee3 - 2 * d * 65536 * gamma - 2 * d * ee0 + dd_sum;

    // Bound each rounding term.
    let dd = iabs(d);
    assert(-(16 * 65536 * dd) <= 2 * d * 65536 * gamma <= 16 * 65536 * dd) by (nonlinear_arith)
        requires -8 <= gamma <= 8 && -dd <= d <= dd && 0 <= dd;
    assert(-(6 * 65536 * dd) <= 2 * d * ee0 <= 6 * 65536 * dd) by (nonlinear_arith)
        requires -(3 * 65536) < ee0 < 3 * 65536 && -dd <= d <= dd && 0 <= dd;
    assert(-(2 * 65536 * 65536) <= dx * nx <= 2 * 65536 * 65536) by (nonlinear_arith)
        requires -65536 < dx < 65536 && -131072 <= nx <= 131072;
    assert(-(2 * 65536 * 65536) <= dy * ny <= 2 * 65536 * 65536) by (nonlinear_arith)
        requires -65536 < dy < 65536 && -131072 <= ny <= 131072;
    assert(-(2 * 65536 * 65536) <= dz * nz <= 2 * 65536 * 65536) by (nonlinear_arith)
        requires -65536 < dz < 65536 && -131072 <= nz <= 131072;
    assert(-65536 < e1x < 65536 && -65536 < e1y < 65536 && -65536 < e1z < 65536);
    assert(-65536 < e3x < 65536 && -65536 < e3y < 65536 && -65536 < e3z < 65536);
    assert(-(3 * 65536 * 65536) <= 65536 * ee1 <= 3 * 65536 * 65536);
    assert(-(3 * 65536 * 65536) <= 65536 * ee3 <= 3 * 65536 * 65536);
    assert(-(6 * 65536 * 65536) <= dd_sum <= 6 * 65536 * 65536);
    assert(-(12 * 65536 * 65536 + 22 * dd * 65536) <= x <= 12 * 65536 * 65536 + 22 * dd * 65536)
        by (nonlinear_arith)
        requires
            x == 65536 * ee1 - 65536 * ee3 - 2 * d * 65536 * gamma - 2 * d * ee0 + dd_sum
            && -(3 * 65536 * 65536) <= 65536 * ee1 <= 3 * 65536 * 65536
            && -(3 * 65536 * 65536) <= 65536 * ee3 <= 3 * 65536 * 65536
            && -(16 * 65536 * dd) <= 2 * d * 65536 * gamma <= 16 * 65536 * dd
            && -(6 * 65536 * dd) <= 2 * d * ee0 <= 6 * 65536 * dd
            && -(6 * 65536 * 65536) <= dd_sum <= 6 * 65536 * 65536;
    assert(iabs(big_r + d) * 65536 <= 12 * 65536 + 22 * dd) by (nonlinear_arith)
        requires
            65536 * 65536 * (big_r + d) == x
            && -(12 * 65536 * 65536 + 22 * dd * 65536) <= x <= 12 * 65536 * 65536 + 22 * dd * 65536
            && 0 <= dd
            && iabs(big_r + d) == if big_r + d < 0 { -(big_r + d) } else { big_r + d };
}

/// Reflection flips the aligned component at the representation too, within
/// rounding: for a normal whose components do not exceed two and whose
/// squared length sits within eight steps of one, and a vector well inside
/// the saturation range, the reflected vector's dot product with the normal
/// misses the negation of the incoming one's by at most twelve steps plus
/// twenty-two parts in 2^16 of its magnitude.
pub proof fn lemma_reflect_dot_rounded(v: Vec3, n: Vec3)
    requires
        iabs(n.x as int) <= 2 * FX_ONE as int,
        iabs(n.y as int) <= 2 * FX_ONE as int,
        iabs(n.z as int) <= 2 * FX_ONE as int,
        iabs(spec_dot(n, n) - FX_ONE as int) <= 8,
        iabs(v.x as int) <= 0x100_0000_0000,
        iabs(v.y as int) <= 0x100_0000_0000,
        iabs(v.z as int) <= 0x100_0000_0000,
    ensures
        iabs(spec_dot(spec_reflect(v, n), n) + spec_dot(v, n)) * (FX_ONE as int)
            <= 12 * (FX_ONE as int) + 22 * iabs(spec_dot(v, n)),
{
    let vx = v.x as int;
    let vy = v.y as int;
    let vz = v.z as int;
    let nx = n.x as int;
    let ny = n.y as int;
    let nz = n.z as int;

    // The incoming dot product stays far from saturation.
    let t1 = tdiv(vx * nx, 65536);
    let t2 = tdiv(vy * ny, 65536);
    let t3 = tdiv(vz * nz, 65536);
    assert(iabs(vx * nx) <= 0x200_0000_0000_0000) by (nonlinear_arith)
        requires iabs(vx) <= 0x100_0000_0000 && iabs(nx) <= 0x2_0000;
    assert(iabs(vy * ny) <= 0x200_0000_0000_0000) by (nonlinear_arith)
        requires iabs(vy) <= 0x100_0000_0000 && iabs(ny) <= 0x2_0000;
    assert(iabs(vz * nz) <= 0x200_0000_0000_0000) by (nonlinear_arith)
        requires iabs(vz) <= 0x100_0000_0000 && iabs(nz) <= 0x2_0000;
    lemma_tdiv_abs_bound(vx * nx, 65536, 0x200_0000_0000_0000);
    lemma_tdiv_abs_bound(vy * ny, 65536, 0x200_0000_0000_0000);
    lemma_tdiv_abs_bound(vz * nz, 65536, 0x200_0000_0000_0000);
    lemma_tdiv_err(vx * nx, 65536);
    lemma_tdiv_err(vy * ny, 65536);
    lemma_tdiv_err(vz * nz, 65536);
    let d = spec_dot(v, n);
    assert(d == t1 + t2 + t3);
    assert(iabs(d) <= 0x600_0000_0000);

    // The mirror scale factor is exactly twice the dot product.
    assert((2 * d) * 65536 == (2 * 65536) * d) by (nonlinear_arith);
    lemma_tdiv_multiple(2 * d, 65536);
    let k = fxmul(2 * FX_ONE as int, d);
    assert(k == 2 * d);

    // The mirror components, far from saturation.
    let sc = spec_scale(n, k);
    let mx = tdiv(nx * k, 65536);
    let my = tdiv(ny * k, 65536);
    let mz = tdiv(nz * k, 65536);
    assert(iabs(nx * k) <= 0x1800_0000_0000_0000) by (nonlinear_arith)
        requires iabs(nx) <= 0x2_0000 && iabs(k) <= 0xC00_0000_0000;
    assert(iabs(ny * k) <= 0x1800_0000_0000_0000) by (nonlinear_arith)
        requires iabs(ny) <= 0x2_0000 && iabs(k) <= 0xC00_0000_0000;
    assert(iabs(nz * k) <= 0x1800_0000_0000_0000) by (nonlinear_arith)
        requires iabs(nz) <= 0x2_0000 && iabs(k) <= 0xC00_0000_0000;
    lemma_tdiv_abs_bound(nx * k, 65536, 0x1800_0000_0000_0000);
    lemma_tdiv_abs_bound(ny * k, 65536, 0x1800_0000_0000_0000);
    lemma_tdiv_abs_bound(nz * k, 65536, 0x1800_0000_0000_0000);
    lemma_tdiv_err(nx * k, 65536);
    lemma_tdiv_err(ny * k, 65536);
    lemma_tdiv_err(nz * k, 65536);
    assert(sc.x as int == mx && sc.y as int == my && sc.z as int == mz);

    // The reflected components.
    let rv = spec_reflect(v, n);
    assert(rv == spec_sub(v, sc));
    let rx = vx - mx;
    let ry = vy - my;
    let rz = vz - mz;
    assert(rv.x as int == rx && rv.y as int == ry && rv.z as int == rz);

    // The outgoing dot product, far from saturation.
    let u1 = tdiv(rx * nx, 65536);
    let u2 = tdiv(ry * ny, 65536);
    let u3 = tdiv(rz * nz, 65536);
    assert(iabs(rx * nx) <= 0x3200_0000_0000_0000) by (nonlinear_arith)
        requires iabs(rx) <= 0x1900_0000_0000 && iabs(nx) <= 0x2_0000;
    assert(iabs(ry * ny) <= 0x3200_0000_0000_0000) by (nonlinear_arith)
        requires iabs(ry) <= 0x1900_0000_0000 && iabs(ny) <= 0x2_0000;
    assert(iabs(rz * nz) <= 0x3200_0000_0000_0000) by (nonlinear_arith)
        requires iabs(rz) <= 0x1900_0000_0000 && iabs(nz) <= 0x2_0000;
    lemma_tdiv_abs_bound(rx * nx, 65536, 0x3200_0000_0000_0000);
    lemma_tdiv_abs_bound(ry * ny, 65536, 0x3200_0000_0000_0000);
    lemma_tdiv_abs_bound(rz * nz, 65536, 0x3200_0000_0000_0000);
    lemma_tdiv_err(rx * nx, 65536);
    lemma_tdiv_err(ry * ny, 65536);
    lemma_tdiv_err(rz * nz, 65536);
    let big_r = spec_dot(rv, n);
    assert(big_r == u1 + u2 + u3);

    // The normal's squared length against its own dot product.
    let tn1 = tdiv(nx * nx, 65536);
    let tn2 = tdiv(ny * ny, 65536);
    let tn3 = tdiv(nz * nz, 65536);
    assert(iabs(nx * nx) <= 0x4_0000_0000) by (nonlinear_arith)
        requires iabs(nx) <= 0x2_0000;
    assert(iabs(ny * ny) <= 0x4_0000_0000) by (nonlinear_arith)
        requires iabs(ny) <= 0x2_0000;
    assert(iabs(nz * nz) <= 0x4_0000_0000) by (nonlinear_arith)
        requires iabs(nz) <= 0x2_0000;
    lemma_tdiv_abs_bound(nx * nx, 65536, 0x4_0000_0000);
    lemma_tdiv_abs_bound(ny * ny, 65536, 0x4_0000_0000);
    lemma_tdiv_abs_bound(nz * nz, 65536, 0x4_0000_0000);
    lemma_tdiv_err(nx * nx, 65536);
    lemma_tdiv_err(ny * ny, 65536);
    lemma_tdiv_err(nz * nz, 65536);
    assert(spec_dot(n, n) == tn1 + tn2 + tn3);

    lemma_reflect_round_core(
        vx, vy, vz, nx, ny, nz,
        t1, t2, t3, d,
        mx, my, mz,
        rx, ry, rz,
        u1, u2, u3, big_r,
        tn1, tn2, tn3,
    );
}

} // verus!
