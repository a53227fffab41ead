//! The recursive radiance estimator and scene construction.
//!
//! `radiance` queries the scene for the nearest hit, asks the material to
//! scatter, and recurses on the scattered ray until absorption, a miss, or
//! an exhausted depth budget. Randomness enters only through the per-bounce
//! draws; the contract pins the result to the radiance recurrence for some
//! admissible trace of draws, exactly black at a spent budget, and exactly
//! the sky gradient on a miss.

use vstd::prelude::*;
use crate::fixed::{Fx, FX_ONE, fxadd, fxsub, fxmul, lemma_fxmul_unit};
use crate::hittable::{HitRecord, Sphere};
use crate::hittable_list::spec_fold_hit;
use crate::material::{
    Material, color_wf, material_wf, spec_scatter, random_in_uint_sphere,
    lemma_scatter_attenuation_is_color,
};
use crate::ray::Ray;
use crate::rng::draw_unit;
use crate::vec3::{Vec3, spec_add, spec_scale, spec_mul, spec_unit, spec_sqlen, lemma_sqlen_zero};

verus! {

/// The lower bound of every scene query: a small epsilon above zero that
/// avoids self-intersection at the hit point.
pub const T_EPSILON: i64 = 66;

/// One half, in fixed point.
pub const FX_HALF: i64 = 32768;

/// The sky's horizon-to-zenith blend color, rounded to the scale.
pub open spec fn spec_sky_blue() -> Vec3 {
    Vec3 { x: 32768i64, y: 45875i64, z: 65536i64 }
}

/// The sky's blend parameter: `0.5 * (y + 1)` for the unit direction's
/// height, clamped to the unit interval. At this scale the unit vector of a
/// direction much shorter than one can overshoot unit length, and an
/// unclamped blend would then push the gradient out of the color gamut.
pub open spec fn spec_sky_t(ray: Ray) -> int {
    let ud = spec_unit(ray.direction);
    let t0 = fxmul(FX_HALF as int, fxadd(ud.y as int, FX_ONE as int));
    if t0 < 0 {
        0
    } else if t0 > FX_ONE as int {
        FX_ONE as int
    } else {
        t0
    }
}

/// The background light for a missed ray: a vertical gradient from white to
/// light blue, keyed by the clamped blend parameter.
pub open spec fn spec_sky(ray: Ray) -> Vec3 {
    let t = spec_sky_t(ray);
    spec_add(
        spec_scale(Vec3 { x: FX_ONE, y: FX_ONE, z: FX_ONE }, fxsub(FX_ONE as int, t)),
        spec_scale(spec_sky_blue(), t),
    )
}

/// The sky stays in gamut: with the blend parameter clamped, every channel
/// of the gradient lies between zero and one.
pub proof fn lemma_sky_in_gamut(ray: Ray)
    ensures
        color_wf(spec_sky(ray)),
{
    let s = FX_ONE as int;
    let t = spec_sky_t(ray);
    assert(0 <= t <= s);
    assert(fxsub(s, t) == s - t);
    lemma_fxmul_unit(s, s - t);
    lemma_fxmul_unit(32768, t);
    lemma_fxmul_unit(45875, t);
    lemma_fxmul_unit(s, t);
}

/// A well-formed scene: every sphere has a positive radius and a
/// well-formed material.
pub open spec fn scene_wf(s: Seq<Sphere>) -> bool {
    forall|i: int| 0 <= i < s.len()
        ==> (#[trigger] s[i]).radius > 0 && material_wf(s[i].material)
}

/// An admissible trace of per-bounce draws: each entry holds a point
/// strictly inside the unit ball and a scalar in `[0, 1)`.
pub open spec fn draws_wf(d: Seq<(Vec3, i64)>) -> bool {
    forall|i: int| 0 <= i < d.len()
        ==> spec_sqlen((#[trigger] d[i]).0) < FX_ONE as int && 0 <= d[i].1 < FX_ONE
}

/// The length of a full trace for a given depth budget: one entry for each
/// bounce the budget admits.
pub open spec fn trace_len(depth: int) -> int {
    if depth < 0 { 0 } else { depth + 1 }
}

/// An idle trace: admissible draws that no branch of the recurrence reads.
pub open spec fn idle_draws(n: int) -> Seq<(Vec3, i64)> {
    Seq::new(n as nat, |i: int| (Vec3 { x: 0i64, y: 0i64, z: 0i64 }, 0i64))
}

proof fn lemma_idle_draws_wf(n: int)
    requires
        n >= 0,
    ensures
        draws_wf(idle_draws(n)),
        idle_draws(n).len() == n,
{
    lemma_sqlen_zero();
    assert forall|i: int| 0 <= i < idle_draws(n).len()
        implies spec_sqlen((#[trigger] idle_draws(n)[i]).0) < FX_ONE as int
            && 0 <= idle_draws(n)[i].1 < FX_ONE by {
        assert(idle_draws(n)[i] == (Vec3 { x: 0i64, y: 0i64, z: 0i64 }, 0i64));
    }
}

/// The radiance recurrence, deterministic in a trace of per-bounce draws:
/// black at a spent depth budget; the sky on a miss; on a hit, the
/// scattered recursion attenuated componentwise, with an absorbed or
/// degenerate scatter (or an exhausted trace) contributing black.
pub open spec fn spec_radiance(ray: Ray, world: Seq<Sphere>, depth: int, draws: Seq<(Vec3, i64)>) -> Vec3
    decreases (if depth < 0 { 0int } else { depth + 1 }),
{
    let black = Vec3 { x: 0i64, y: 0i64, z: 0i64 };
    if depth < 0 {
        black
    } else {
        match spec_fold_hit(world, ray, T_EPSILON as int, i64::MAX as int, None::<HitRecord>) {
            Some(rec) => {
                if draws.len() == 0 {
                    black
                } else {
                    match spec_scatter(rec.material, ray, rec, draws[0].0, draws[0].1 as int) {
                        Some(pair) => {
                            if spec_sqlen(pair.1.direction) > 0 {
                                spec_mul(pair.0, spec_radiance(pair.1, world, depth - 1, draws.skip(1)))
                            } else {
                                black
                            }
                        }
                        None => black,
                    }
                }
            }
            None => spec_sky(ray),
        }
    }
}

/// One sample of the light transport along a ray: the color carried back,
/// over a bounded recursion. A depth below zero yields exactly black; a ray
/// that misses every sphere yields exactly the sky gradient; and the result
/// follows the radiance recurrence for a full-length admissible trace of
/// draws — one entry per bounce the budget admits, so a hit must take the
/// scatter rule for the trace's first draw. The returned color is always in
/// gamut: every channel lies between zero and one. A scattered ray whose
/// direction is degenerate at this scale is treated as absorbed, as the
/// recurrence states.
pub fn radiance(ray: &Ray, world: &Vec<Sphere>, depth: i32, rng: &mut rand::rngs::StdRng) -> (c: Vec3)
    requires
        scene_wf(world@),
        spec_sqlen(ray.direction) > 0,
    ensures
        depth < 0 ==> c == (Vec3 { x: 0i64, y: 0i64, z: 0i64 }),
        depth >= 0 && spec_fold_hit(world@, *ray, T_EPSILON as int, i64::MAX as int, None::<HitRecord>) is None
            ==> c == spec_sky(*ray),
        exists|draws: Seq<(Vec3, i64)>|
            draws_wf(draws) && draws.len() == trace_len(depth as int)
            && c == #[trigger] spec_radiance(*ray, world@, depth as int, draws),
        0 <= c.x <= FX_ONE,
        0 <= c.y <= FX_ONE,
        0 <= c.z <= FX_ONE,
    decreases (if depth < 0 { 0int } else { depth + 1 }),
{
    let ghost empty = Seq::<(Vec3, i64)>::empty();
    if depth < 0 {
        proof {
            assert(draws_wf(empty));
            assert(spec_radiance(*ray, world@, depth as int, empty)
                == (Vec3 { x: 0i64, y: 0i64, z: 0i64 }));
        }
        return Vec3::zero();
    }

    proof {
        assert forall|k: int| 0 <= k < world@.len() implies (#[trigger] world@[k]).radius != 0 by {
            assert(world@[k].radius > 0);
        }
    }
    match crate::hittable_list::hit(world, ray, T_EPSILON, i64::MAX) {
        Some(hit_record) => {
            proof {
                let j = choose|j: int| 0 <= j < world@.len()
                    && crate::hittable::spec_sphere_root(world@[j], *ray, T_EPSILON as int, i64::MAX as int)
                        == Some(hit_record.t as int)
                    && hit_record == crate::hittable::spec_record_at(world@[j], *ray, hit_record.t as int);
                assert(material_wf(world@[j].material));
                assert(hit_record.material == world@[j].material);
            }
            let rand_ball: Vec3 = random_in_uint_sphere(rng);
            let rand_u: Fx = draw_unit(rng);
            match hit_record.material.scatter(ray, &hit_record, rand_ball, rand_u) {
                Some(pair) => {
                    let (attenuation, scattered) = pair;
                    if scattered.direction().squared_length() > 0 {
                        let sub: Vec3 = radiance(&scattered, world, depth - 1, rng);
                        let result: Vec3 = attenuation.mul(sub);
                        proof {
                            lemma_scatter_attenuation_is_color(
                                hit_record.material, *ray, hit_record, rand_ball, rand_u as int,
                            );
                            assert(color_wf(attenuation));
                            lemma_fxmul_unit(attenuation.x as int, sub.x as int);
                            lemma_fxmul_unit(attenuation.y as int, sub.y as int);
                            lemma_fxmul_unit(attenuation.z as int, sub.z as int);
                            let subdraws = choose|d: Seq<(Vec3, i64)>| draws_wf(d)
                                && d.len() == trace_len(depth as int - 1)
                                && sub == #[trigger] spec_radiance(scattered, world@, depth as int - 1, d);
                            let mydraws = seq![(rand_ball, rand_u)] + subdraws;
                            assert forall|k: int| 0 <= k < mydraws.len()
                                implies spec_sqlen((#[trigger] mydraws[k]).0) < FX_ONE as int
                                    && 0 <= mydraws[k].1 < FX_ONE by {
                                if k == 0 {
                                    assert(mydraws[0] == (rand_ball, rand_u));
                                } else {
                                    assert(mydraws[k] == subdraws[k - 1]);
                                }
                            }
                            assert(draws_wf(mydraws));
                            assert(mydraws.len() == trace_len(depth as int));
                            assert(mydraws[0] == (rand_ball, rand_u));
                            assert(mydraws.skip(1) =~= subdraws);
                            assert(spec_radiance(*ray, world@, depth as int, mydraws) == result);
                        }
                        result
                    } else {
                        proof {
                            lemma_idle_draws_wf(depth as int);
                            let mydraws = seq![(rand_ball, rand_u)] + idle_draws(depth as int);
                            assert forall|k: int| 0 <= k < mydraws.len()
                                implies spec_sqlen((#[trigger] mydraws[k]).0) < FX_ONE as int
                                    && 0 <= mydraws[k].1 < FX_ONE by {
                                if k == 0 {
                                    assert(mydraws[0] == (rand_ball, rand_u));
                                } else {
                                    assert(mydraws[k] == idle_draws(depth as int)[k - 1]);
                                }
                            }
                            assert(draws_wf(mydraws));
                            assert(mydraws.len() == trace_len(depth as int));
                            assert(mydraws[0] == (rand_ball, rand_u));
                            assert(spec_radiance(*ray, world@, depth as int, mydraws)
                                == (Vec3 { x: 0i64, y: 0i64, z: 0i64 }));
                        }
                        Vec3::zero()
                    }
                }
                None => {
                    proof {
                        lemma_idle_draws_wf(depth as int);
                        let mydraws = seq![(rand_ball, rand_u)] + idle_draws(depth as int);
                        assert forall|k: int| 0 <= k < mydraws.len()
                            implies spec_sqlen((#[trigger] mydraws[k]).0) < FX_ONE as int
                                && 0 <= mydraws[k].1 < FX_ONE by {
                            if k == 0 {
                                assert(mydraws[0] == (rand_ball, rand_u));
                            } else {
                                assert(mydraws[k] == idle_draws(depth as int)[k - 1]);
                            }
                        }
                        assert(draws_wf(mydraws));
                        assert(mydraws.len() == trace_len(depth as int));
                        assert(mydraws[0] == (rand_ball, rand_u));
                        assert(spec_radiance(*ray, world@, depth as int, mydraws)
                            == (Vec3 { x: 0i64, y: 0i64, z: 0i64 }));
                    }
                    Vec3::zero()
                }
            }
        }
        None => {
            let ud: Vec3 = ray.direction().unit_vector();
            let t0: Fx = fx_mul_half_plus(ud.y());
            let t: Fx = if t0 < 0 { 0 } else if t0 > FX_ONE { FX_ONE } else { t0 };
            let white: Vec3 = Vec3::new(FX_ONE, FX_ONE, FX_ONE);
            let blue: Vec3 = Vec3::new(32768, 45875, 65536);
            let c: Vec3 = white.scale(crate::fixed::fx_sub(FX_ONE, t)).add(blue.scale(t));
            proof {
                lemma_idle_draws_wf(depth as int + 1);
                assert(idle_draws(depth as int + 1).len() == trace_len(depth as int));
                assert(t as int == spec_sky_t(*ray));
                assert(c == spec_sky(*ray));
                lemma_sky_in_gamut(*ray);
                assert(spec_radiance(*ray, world@, depth as int, idle_draws(depth as int + 1))
                    == spec_sky(*ray));
            }
            c
        }
    }
}

/// The sky blend parameter `0.5 * (y + 1)` for a unit direction's height.
fn fx_mul_half_plus(y: Fx) -> (r: Fx)
    ensures
        r as int == fxmul(FX_HALF as int, fxadd(y as int, FX_ONE as int)),
{
    crate::fixed::fx_mul(FX_HALF, crate::fixed::fx_add(y, FX_ONE))
}

/// A scene from a list of primitives: each entry's center, radius and
/// material become one sphere. Construction only; the scene is read-only
/// thereafter.
pub fn build_scene(items: Vec<(Vec3, Fx, Material)>) -> (w: Vec<Sphere>)
    ensures
        w@.len() == items@.len(),
        forall|i: int| 0 <= i < items@.len()
            ==> #[trigger] w@[i] == (Sphere {
                center: items@[i].0,
                radius: items@[i].1,
                material: items@[i].2,
            }),
{
    let mut w: Vec<Sphere> = Vec::new();
    let mut i: usize = 0;
    while i < items.len()
        invariant
            i <= items@.len(),
            w@.len() == i,
            forall|k: int| 0 <= k < i
                ==> #[trigger] w@[k] == (Sphere {
                    center: items@[k].0,
                    radius: items@[k].1,
                    material: items@[k].2,
                }),
        decreases items@.len() - i,
    {
        let item = items[i];
        w.push(Sphere::new(item.0, item.1, item.2));
        i = i + 1;
    }
    w
}

} // verus!
