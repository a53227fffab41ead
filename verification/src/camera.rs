//! The camera: maps a normalized image-plane coordinate pair to a world
//! ray, optionally with a thin-lens depth-of-field offset.
//!
//! The vertical field of view is given in degrees; the half-angle's tangent
//! sizes the viewport. Tangent is computed as the quotient of low-order
//! Taylor polynomials for sine and cosine, which serve for half-angles
//! below about a radian; each function's contract pins the polynomial's
//! value exactly.

use vstd::prelude::*;
use crate::fixed::{
    Fx, FX_ONE, fxadd, fxsub, fxmul, fxdiv, fxdivi,
    fx_add, fx_sub, fx_mul, fx_div, fx_divi,
};
use crate::ray::Ray;
use crate::rng::draw_symmetric;
use crate::vec3::{
    Vec3, spec_add, spec_sub, spec_scale, spec_div_s, spec_cross, spec_unit, spec_sqlen,
    lemma_sqlen_zero,
};

verus! {

/// Radians per degree in fixed point: pi / 180, rounded to the scale.
pub const FX_RAD_PER_DEG: i64 = 1144;

/// The sine Taylor polynomial `x - x^3/6 + x^5/120 - x^7/5040` over
/// fixed-point scalars.
pub open spec fn spec_sin_poly(x: int) -> int {
    let x2 = fxmul(x, x);
    let x3 = fxmul(x2, x);
    let x5 = fxmul(x3, x2);
    let x7 = fxmul(x5, x2);
    fxsub(fxadd(fxsub(x, fxdivi(x3, 6)), fxdivi(x5, 120)), fxdivi(x7, 5040))
}

/// The cosine Taylor polynomial `1 - x^2/2 + x^4/24 - x^6/720` over
/// fixed-point scalars.
pub open spec fn spec_cos_poly(x: int) -> int {
    let x2 = fxmul(x, x);
    let x4 = fxmul(x2, x2);
    let x6 = fxmul(x4, x2);
    fxsub(fxadd(fxsub(FX_ONE as int, fxdivi(x2, 2)), fxdivi(x4, 24)), fxdivi(x6, 720))
}

/// The tangent as the quotient of the two polynomials; where the cosine
/// polynomial is not positive the result saturates, standing for a pole.
pub open spec fn spec_tan(x: int) -> int {
    let c = spec_cos_poly(x);
    if c <= 0 { i64::MAX as int } else { fxdiv(spec_sin_poly(x), c) }
}

/// The sine polynomial, evaluated exactly as specified.
pub fn fx_sin(x: Fx) -> (r: Fx)
    ensures
        r as int == spec_sin_poly(x as int),
{
    let x2: Fx = fx_mul(x, x);
    let x3: Fx = fx_mul(x2, x);
    let x5: Fx = fx_mul(x3, x2);
    let x7: Fx = fx_mul(x5, x2);
    fx_sub(fx_add(fx_sub(x, fx_divi(x3, 6)), fx_divi(x5, 120)), fx_divi(x7, 5040))
}

/// The cosine polynomial, evaluated exactly as specified.
pub fn fx_cos(x: Fx) -> (r: Fx)
    ensures
        r as int == spec_cos_poly(x as int),
{
    let x2: Fx = fx_mul(x, x);
    let x4: Fx = fx_mul(x2, x2);
    let x6: Fx = fx_mul(x4, x2);
    fx_sub(fx_add(fx_sub(FX_ONE, fx_divi(x2, 2)), fx_divi(x4, 24)), fx_divi(x6, 720))
}

/// The tangent, saturated at the cosine polynomial's sign change.
pub fn fx_tan(x: Fx) -> (r: Fx)
    ensures
        r as int == spec_tan(x as int),
{
    let c: Fx = fx_cos(x);
    if c <= 0 {
        i64::MAX
    } else {
        fx_div(fx_sin(x), c)
    }
}

/// The camera's placement: the image plane's corner and spanning vectors,
/// the eye point, the orthonormal basis, and the lens radius for
/// depth of field.
#[derive(Clone, Copy, Debug, PartialEq, Eq, Structural)]
pub struct Camera {
    pub lower_left_corner: Vec3,
    pub horizontal: Vec3,
    pub vertical: Vec3,
    pub origin: Vec3,
    pub u: Vec3,
    pub v: Vec3,
    pub w: Vec3,
    pub lens_radius: Fx,
}

/// The camera built from a viewpoint, a target, an up hint, a vertical
/// field of view in degrees, an aspect ratio, an aperture and a focus
/// distance, by the right-handed orthonormal basis construction.
pub open spec fn spec_camera(
    lookfrom: Vec3,
    lookat: Vec3,
    vup: Vec3,
    vfov: int,
    aspect_ratio: int,
    aperture: int,
    focus_dist: int,
) -> Camera {
    let theta = fxmul(vfov, FX_RAD_PER_DEG as int);
    let h = spec_tan(fxdiv(theta, 2 * FX_ONE as int));
    let viewport_height = fxmul(2 * FX_ONE as int, h);
    let viewport_width = fxmul(aspect_ratio, viewport_height);
    let w = spec_unit(spec_sub(lookfrom, lookat));
    let u = spec_unit(spec_cross(vup, w));
    let v = spec_cross(w, u);
    let horizontal = spec_scale(u, fxmul(focus_dist, viewport_width));
    let vertical = spec_scale(v, fxmul(focus_dist, viewport_height));
    Camera {
        lower_left_corner: spec_sub(
            spec_sub(
                spec_sub(lookfrom, spec_div_s(horizontal, 2 * FX_ONE as int)),
                spec_div_s(vertical, 2 * FX_ONE as int),
            ),
            spec_scale(w, focus_dist),
        ),
        horizontal,
        vertical,
        origin: lookfrom,
        u,
        v,
        w,
        lens_radius: fxdiv(aperture, 2 * FX_ONE as int) as i64,
    }
}

/// The ray for image-plane coordinates `(s, t)` and a lens-disk sample:
/// the origin is offset within the lens, and the direction runs to the
/// plane point `lower_left + s * horizontal + t * vertical`.
pub open spec fn spec_get_ray(cam: Camera, s: int, t: int, disk: Vec3) -> Ray {
    let rd = spec_scale(disk, cam.lens_radius as int);
    let offset = spec_add(spec_scale(cam.u, rd.x as int), spec_scale(cam.v, rd.y as int));
    Ray {
        origin: spec_add(cam.origin, offset),
        direction: spec_sub(
            spec_sub(
                spec_add(
                    spec_add(cam.lower_left_corner, spec_scale(cam.horizontal, s)),
                    spec_scale(cam.vertical, t),
                ),
                cam.origin,
            ),
            offset,
        ),
    }
}

/// A random point in the open unit disk of the lens plane, by rejection
/// from the square. The attempt budget is bounded so the function
/// terminates; after it, the center is returned.
fn random_in_unit_disk(rng: &mut rand::rngs::StdRng) -> (p: Vec3)
    ensures
        spec_sqlen(p) < FX_ONE as int,
        p.z == 0,
{
    let mut tries: usize = 0;
    while tries < 64
        invariant
            tries <= 64,
        decreases 64 - tries,
    {
        let p = Vec3::new(draw_symmetric(rng), draw_symmetric(rng), 0);
        if p.squared_length() < FX_ONE {
            return p;
        }
        tries = tries + 1;
    }
    proof {
        lemma_sqlen_zero();
    }
    Vec3::zero()
}

impl Camera {
    /// A camera from its placement parameters. Degenerate placements — a
    /// viewpoint atop its target, or an up hint parallel to the view
    /// direction — are ruled out by contract.
    pub fn new(
        lookfrom: &Vec3,
        lookat: &Vec3,
        vup: &Vec3,
        vfov: Fx,
        aspect_ratio: Fx,
        aperture: Fx,
        focus_dist: Fx,
    ) -> (r: Self)
        requires
            spec_sqlen(spec_sub(*lookfrom, *lookat)) > 0,
            spec_sqlen(spec_cross(*vup, spec_unit(spec_sub(*lookfrom, *lookat)))) > 0,
        ensures
            r == spec_camera(
                *lookfrom, *lookat, *vup,
                vfov as int, aspect_ratio as int, aperture as int, focus_dist as int,
            ),
    {
        let theta: Fx = fx_mul(vfov, FX_RAD_PER_DEG);
        let theta_half: Fx = fx_div(theta, 2 * FX_ONE);
        let h: Fx = fx_tan(theta_half);
        let viewport_height: Fx = fx_mul(2 * FX_ONE, h);
        let viewport_width: Fx = fx_mul(aspect_ratio, viewport_height);
        let w: Vec3 = lookfrom.sub(*lookat).unit_vector();
        let u: Vec3 = vup.cross(&w).unit_vector();
        let v: Vec3 = w.cross(&u);

        let origin: Vec3 = *lookfrom;
        let horizontal: Vec3 = u.scale(fx_mul(focus_dist, viewport_width));
        let vertical: Vec3 = v.scale(fx_mul(focus_dist, viewport_height));
        let lower_left_corner: Vec3 = origin
            .sub(horizontal.div_s(2 * FX_ONE))
            .sub(vertical.div_s(2 * FX_ONE))
            .sub(w.scale(focus_dist));

        let lens_radius: Fx = fx_div(aperture, 2 * FX_ONE);
        Camera {
            lower_left_corner,
            horizontal,
            vertical,
            origin,
            u,
            v,
            w,
            lens_radius,
        }
    }

    /// The ray for `(s, t)` and an explicit lens-disk sample, pinned
    /// exactly.
    pub fn get_ray_with(&self, s: Fx, t: Fx, disk: Vec3) -> (r: Ray)
        ensures
            r == spec_get_ray(*self, s as int, t as int, disk),
    {
        let rd: Vec3 = disk.scale(self.lens_radius);
        let offset: Vec3 = self.u.scale(rd.x()).add(self.v.scale(rd.y()));
        Ray::new(
            self.origin.add(offset),
            self.lower_left_corner
                .add(self.horizontal.scale(s))
                .add(self.vertical.scale(t))
                .sub(self.origin)
                .sub(offset),
        )
    }

    /// The ray for `(s, t)` with a random lens-disk sample: some point of
    /// the open unit disk yields exactly this ray.
    pub fn get_ray(&self, s: Fx, t: Fx, rng: &mut rand::rngs::StdRng) -> (r: Ray)
        ensures
            exists|d: Vec3|
                spec_sqlen(d) < FX_ONE as int && d.z == 0
                && r == #[trigger] spec_get_ray(*self, s as int, t as int, d),
    {
        let disk: Vec3 = random_in_unit_disk(rng);
        let r = self.get_ray_with(s, t, disk);
        proof {
            assert(r == spec_get_ray(*self, s as int, t as int, disk));
        }
        r
    }
}

} // verus!
