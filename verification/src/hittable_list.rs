//! The scene-level intersection query: the nearest hit over a list of
//! spheres.
//!
//! The query folds over the list, shrinking the upper bound of the search
//! interval to the best parameter found so far. Its contract states the
//! result in terms of each sphere's independent answer over the full
//! interval: the returned parameter is the least of them, whatever the
//! insertion order.

use vstd::prelude::*;
use crate::fixed::{
    Fx, fxadd, fxsub, fxneg, fxdiv, fxsqrt, isqrt,
    lemma_isqrt_props, lemma_sat64_monotone, lemma_fxdiv_monotone_num,
};
use crate::hittable::{HitRecord, Sphere, spec_sphere_root, spec_sphere_hit, spec_record_at};
use crate::ray::Ray;
use crate::vec3::{spec_sqlen, spec_dot, spec_sub};

verus! {

/// The least accepted root over the spheres, searching the full interval
/// for each sphere independently; ties keep the earlier sphere's value.
pub open spec fn scene_best_t(spheres: Seq<Sphere>, ray: Ray, t_min: int, t_max: int) -> Option<int>
    decreases spheres.len(),
{
    if spheres.len() == 0 {
        None
    } else {
        let prev = scene_best_t(spheres.drop_last(), ray, t_min, t_max);
        let cur = spec_sphere_root(spheres.last(), ray, t_min, t_max);
        match (prev, cur) {
            (None, None) => None,
            (Some(p), None) => Some(p),
            (None, Some(c)) => Some(c),
            (Some(p), Some(c)) => if c < p { Some(c) } else { Some(p) },
        }
    }
}

/// The query's fold itself, as a deterministic mirror: spheres are taken in
/// list order, each searched only up to the best parameter found so far.
pub open spec fn spec_fold_hit(
    s: Seq<Sphere>,
    ray: Ray,
    t_min: int,
    closest: int,
    acc: Option<HitRecord>,
) -> Option<HitRecord>
    decreases s.len(),
{
    if s.len() == 0 {
        acc
    } else {
        match spec_sphere_hit(s[0], ray, t_min, closest) {
            Some(rec) => spec_fold_hit(s.skip(1), ray, t_min, rec.t as int, Some(rec)),
            None => spec_fold_hit(s.skip(1), ray, t_min, closest, acc),
        }
    }
}

/// Shrinking the search interval's upper bound cannot invent a different
/// hit: a root accepted in the narrower interval is the root for the full
/// one, and if the narrower search fails, any root of the full search lies
/// at or beyond the narrow bound.
proof fn lemma_root_shrink(s: Sphere, ray: Ray, t_min: int, closest: int, t_max: int)
    requires
        closest <= t_max,
        spec_sqlen(ray.direction) > 0,
    ensures
        spec_sphere_root(s, ray, t_min, closest) is Some
            ==> spec_sphere_root(s, ray, t_min, t_max) == spec_sphere_root(s, ray, t_min, closest),
        spec_sphere_root(s, ray, t_min, closest) is None
            ==> match spec_sphere_root(s, ray, t_min, t_max) {
                None => true,
                Some(t) => t >= closest,
            },
{
    let oc = spec_sub(ray.origin, s.center);
    let a = spec_dot(ray.direction, ray.direction);
    let b = spec_dot(oc, ray.direction);
    let disc = fxsub(
        crate::fixed::fxmul(b, b),
        crate::fixed::fxmul(a, fxsub(spec_dot(oc, oc), crate::fixed::fxmul(s.radius as int, s.radius as int))),
    );
    if disc > 0 {
        let sq = fxsqrt(disc);
        lemma_isqrt_props(disc * 65536);
        assert(sq >= 0);
        let r1 = fxdiv(fxsub(fxneg(b), sq), a);
        let r2 = fxdiv(fxadd(fxneg(b), sq), a);
        lemma_sat64_monotone(fxneg(b) as int - sq, fxneg(b) as int + sq);
        lemma_fxdiv_monotone_num(fxsub(fxneg(b), sq), fxadd(fxneg(b), sq), a);
        assert(r1 <= r2);
    }
}

/// The nearest intersection over all spheres strictly inside
/// `(t_min, t_max)`: the record whose parameter is the least accepted root
/// of any sphere over the full interval, independent of list order.
#[verifier::rlimit(100)]
pub fn hit(list: &Vec<Sphere>, ray: &Ray, t_min: Fx, t_max: Fx) -> (r: Option<HitRecord>)
    requires
        spec_sqlen(ray.direction) > 0,
        forall|k: int| 0 <= k < list@.len() ==> (#[trigger] list@[k]).radius != 0,
    ensures
        r == spec_fold_hit(list@, *ray, t_min as int, t_max as int, None::<HitRecord>),
        match r {
            None => scene_best_t(list@, *ray, t_min as int, t_max as int) is None,
            Some(rec) => {
                &&& scene_best_t(list@, *ray, t_min as int, t_max as int) == Some(rec.t as int)
                &&& exists|j: int| 0 <= j < list@.len()
                    && spec_sphere_root(#[trigger] list@[j], *ray, t_min as int, t_max as int)
                        == Some(rec.t as int)
                    && rec == spec_record_at(list@[j], *ray, rec.t as int)
            },
        },
{
    let mut closest_so_far: Fx = t_max;
    let mut hit_record: Option<HitRecord> = None;
    let mut i: usize = 0;
    proof {
        assert(list@.skip(0) =~= list@);
    }
    while i < list.len()
        invariant
            i <= list@.len(),
            spec_sqlen(ray.direction) > 0,
            forall|k: int| 0 <= k < list@.len() ==> (#[trigger] list@[k]).radius != 0,
            closest_so_far <= t_max,
            spec_fold_hit(list@.skip(i as int), *ray, t_min as int, closest_so_far as int, hit_record)
                == spec_fold_hit(list@, *ray, t_min as int, t_max as int, None::<HitRecord>),
            match hit_record {
                None => closest_so_far == t_max
                    && scene_best_t(list@.take(i as int), *ray, t_min as int, t_max as int) is None,
                Some(rec) => {
                    &&& closest_so_far == rec.t
                    &&& scene_best_t(list@.take(i as int), *ray, t_min as int, t_max as int)
                        == Some(rec.t as int)
                    &&& exists|j: int| 0 <= j < i
                        && spec_sphere_root(#[trigger] list@[j], *ray, t_min as int, t_max as int)
                            == Some(rec.t as int)
                        && rec == spec_record_at(list@[j], *ray, rec.t as int)
                },
            },
        decreases list@.len() - i,
    {
        let cur: Option<HitRecord> = list[i].hit(ray, t_min, closest_so_far);
        proof {
            lemma_root_shrink(list@[i as int], *ray, t_min as int, closest_so_far as int, t_max as int);
            assert(list@.take(i as int + 1).drop_last() =~= list@.take(i as int));
            assert(list@.take(i as int + 1).last() == list@[i as int]);
            assert(list@.skip(i as int)[0] == list@[i as int]);
            assert(list@.skip(i as int).skip(1) =~= list@.skip(i as int + 1));
        }
        match cur {
            Some(rec2) => {
                closest_so_far = rec2.t;
                hit_record = Some(rec2);
            }
            None => {}
        }
        i = i + 1;
    }
    proof {
        assert(list@.take(list@.len() as int) =~= list@);
        assert(list@.skip(list@.len() as int) =~= Seq::<Sphere>::empty());
    }
    hit_record
}

/// The best root is the least accepted root present in the list, and it is
/// attained: a `None` means no sphere accepts a root, and a `Some(t)` names
/// a root that some sphere yields while no sphere yields a smaller one.
#[verifier::rlimit(100)]
pub proof fn lemma_scene_best_props(s: Seq<Sphere>, ray: Ray, t_min: int, t_max: int)
    ensures
        match scene_best_t(s, ray, t_min, t_max) {
            None => forall|i: int| 0 <= i < s.len()
                ==> spec_sphere_root(#[trigger] s[i], ray, t_min, t_max) is None,
            Some(t) => {
                &&& exists|i: int| 0 <= i < s.len()
                    && spec_sphere_root(#[trigger] s[i], ray, t_min, t_max) == Some(t)
                &&& forall|i: int| 0 <= i < s.len()
                    ==> match spec_sphere_root(#[trigger] s[i], ray, t_min, t_max) {
                        Some(u) => u >= t,
                        None => true,
                    }
            },
        },
    decreases s.len(),
{
    if s.len() > 0 {
        let rest = s.drop_last();
        lemma_scene_best_props(rest, ray, t_min, t_max);
        assert(forall|i: int| 0 <= i < rest.len() ==> rest[i] == #[trigger] s[i]);
        assert(s.last() == s[s.len() - 1]);
        match scene_best_t(rest, ray, t_min, t_max) {
            Some(p) => {
                let i0 = choose|i: int| 0 <= i < rest.len()
                    && spec_sphere_root(#[trigger] rest[i], ray, t_min, t_max) == Some(p);
                assert(spec_sphere_root(s[i0], ray, t_min, t_max) == Some(p));
            }
            None => {}
        }
    }
}

/// The nearest parameter does not depend on insertion order at all: scenes
/// holding the same spheres, in any order and multiplicity, yield the same
/// best root over any search interval.
#[verifier::rlimit(100)]
pub proof fn lemma_scene_best_permutation(s1: Seq<Sphere>, s2: Seq<Sphere>, ray: Ray, t_min: int, t_max: int)
    requires
        s1.to_multiset() == s2.to_multiset(),
    ensures
        scene_best_t(s1, ray, t_min, t_max) == scene_best_t(s2, ray, t_min, t_max),
{
    broadcast use vstd::seq_lib::group_to_multiset_ensures;

    lemma_scene_best_props(s1, ray, t_min, t_max);
    lemma_scene_best_props(s2, ray, t_min, t_max);
    match scene_best_t(s1, ray, t_min, t_max) {
        Some(t1) => {
            let i = choose|i: int| 0 <= i < s1.len()
                && spec_sphere_root(#[trigger] s1[i], ray, t_min, t_max) == Some(t1);
            assert(s1.contains(s1[i]));
            assert(s1.to_multiset().count(s1[i]) > 0);
            assert(s2.to_multiset().count(s1[i]) > 0);
            assert(s2.contains(s1[i]));
            let j = choose|j: int| 0 <= j < s2.len() && s2[j] == s1[i];
            match scene_best_t(s2, ray, t_min, t_max) {
                Some(t2) => {
                    let i2 = choose|i2: int| 0 <= i2 < s2.len()
                        && spec_sphere_root(#[trigger] s2[i2], ray, t_min, t_max) == Some(t2);
                    assert(s2.contains(s2[i2]));
                    assert(s2.to_multiset().count(s2[i2]) > 0);
                    assert(s1.to_multiset().count(s2[i2]) > 0);
                    assert(s1.contains(s2[i2]));
                    let j2 = choose|j2: int| 0 <= j2 < s1.len() && s1[j2] == s2[i2];
                    assert(t1 >= t2 && t2 >= t1);
                }
                None => {
                    assert(spec_sphere_root(s2[j], ray, t_min, t_max) == Some(t1));
                }
            }
        }
        None => {
            match scene_best_t(s2, ray, t_min, t_max) {
                Some(t2) => {
                    let i2 = choose|i2: int| 0 <= i2 < s2.len()
                        && spec_sphere_root(#[trigger] s2[i2], ray, t_min, t_max) == Some(t2);
                    assert(s2.contains(s2[i2]));
                    assert(s2.to_multiset().count(s2[i2]) > 0);
                    assert(s1.to_multiset().count(s2[i2]) > 0);
                    assert(s1.contains(s2[i2]));
                    let j2 = choose|j2: int| 0 <= j2 < s1.len() && s1[j2] == s2[i2];
                    assert(spec_sphere_root(s1[j2], ray, t_min, t_max) == Some(t2));
                }
                None => {}
            }
        }
    }
}

/// Swapping two spheres does not change the nearest parameter: for any two
/// spheres and any search interval, both insertion orders yield the same
/// best root.
pub proof fn lemma_pair_order_irrelevant(s1: Sphere, s2: Sphere, ray: Ray, t_min: int, t_max: int)
    ensures
        scene_best_t(seq![s1, s2], ray, t_min, t_max)
            == scene_best_t(seq![s2, s1], ray, t_min, t_max),
{
    let a = seq![s1, s2];
    let b = seq![s2, s1];
    let e = Seq::<Sphere>::empty();
    let p1 = spec_sphere_root(s1, ray, t_min, t_max);
    let p2 = spec_sphere_root(s2, ray, t_min, t_max);
    assert(scene_best_t(e, ray, t_min, t_max) is None);
    assert(a.drop_last() =~= seq![s1]);
    assert(b.drop_last() =~= seq![s2]);
    assert(seq![s1].drop_last() =~= e);
    assert(seq![s2].drop_last() =~= e);
    assert(a.last() == s2 && b.last() == s1);
    assert(seq![s1].last() == s1 && seq![s2].last() == s2);
    assert(scene_best_t(seq![s1], ray, t_min, t_max) == p1);
    assert(scene_best_t(seq![s2], ray, t_min, t_max) == p2);
}

} // verus!
