//! Ray--sphere intersection and the scene-level nearest-hit query.

use pathtracer::hittable::Sphere;
use pathtracer::hittable_list::hit;
use pathtracer::material::{Lambertian, Material};
use pathtracer::ray::Ray;
use pathtracer::vec3::Vec3;

const S: i64 = 65536;
const T_EPS: i64 = 66;

fn gray() -> Material {
    Material::Lambertian(Lambertian::new(&Vec3::new(S / 2, S / 2, S / 2)))
}

#[test]
fn sphere_hit_from_outside() {
    // A sphere at (0, 0, -1) of radius one half, and a ray from the origin
    // straight at it: the near surface sits half a unit away, the hit point
    // at (0, 0, -1/2), the normal back along +z, on the convex side.
    let s = Sphere::new(Vec3::new(0, 0, -S), S / 2, gray());
    let ray = Ray::new(Vec3::new(0, 0, 0), Vec3::new(0, 0, -S));
    let rec = s.hit(&ray, T_EPS, i64::MAX).unwrap();
    assert_eq!(rec.t, S / 2);
    assert_eq!(rec.point, Vec3::new(0, 0, -S / 2));
    assert_eq!(rec.normal, Vec3::new(0, 0, S));
    assert!(rec.front_face);
}

#[test]
fn sphere_hit_from_inside() {
    // A ray that starts at the sphere's center and points outward strikes
    // the concave side: front_face is false and the stored normal points
    // inward, against the outward geometric normal.
    let s = Sphere::new(Vec3::new(0, 0, -S), S / 2, gray());
    let ray = Ray::new(Vec3::new(0, 0, -S), Vec3::new(0, 0, S));
    let rec = s.hit(&ray, T_EPS, i64::MAX).unwrap();
    assert_eq!(rec.t, S / 2);
    assert!(!rec.front_face);
    assert_eq!(rec.normal, Vec3::new(0, 0, -S));
}

#[test]
fn sphere_miss_and_interval() {
    let s = Sphere::new(Vec3::new(0, 0, -S), S / 2, gray());
    // A ray pointing away from the sphere misses it.
    let away = Ray::new(Vec3::new(0, 0, 0), Vec3::new(0, 0, S));
    assert!(s.hit(&away, T_EPS, i64::MAX).is_none());
    // The open interval excludes a root at or beyond its upper bound.
    let toward = Ray::new(Vec3::new(0, 0, 0), Vec3::new(0, 0, -S));
    assert!(s.hit(&toward, T_EPS, S / 2).is_none());
}

#[test]
fn nearest_hit_independent_of_order() {
    // Two overlapping spheres along the ray's path: the record with the
    // smaller parameter is returned, whichever sphere comes first.
    let near = Sphere::new(Vec3::new(0, 0, -2 * S), S, gray());
    let far = Sphere::new(Vec3::new(0, 0, -5 * S / 2), S, gray());
    let ray = Ray::new(Vec3::new(0, 0, 0), Vec3::new(0, 0, -S));

    let ab = vec![near, far];
    let ba = vec![far, near];
    let rec_ab = hit(&ab, &ray, T_EPS, i64::MAX).unwrap();
    let rec_ba = hit(&ba, &ray, T_EPS, i64::MAX).unwrap();
    assert_eq!(rec_ab.t, S);
    assert_eq!(rec_ba.t, S);
    assert_eq!(rec_ab, rec_ba);
}

#[test]
fn empty_scene_misses() {
    let ray = Ray::new(Vec3::new(0, 0, 0), Vec3::new(0, 0, -S));
    assert!(hit(&Vec::new(), &ray, T_EPS, i64::MAX).is_none());
}

#[test]
fn shrinking_bound_skips_occluded_sphere() {
    // The second sphere hides behind the first; the fold's shrinking upper
    // bound never lets it replace the nearer record.
    let near = Sphere::new(Vec3::new(0, 0, -2 * S), S, gray());
    let behind = Sphere::new(Vec3::new(0, 0, -8 * S), S, gray());
    let ray = Ray::new(Vec3::new(0, 0, 0), Vec3::new(0, 0, -S));
    let rec = hit(&vec![behind, near], &ray, T_EPS, i64::MAX).unwrap();
    assert_eq!(rec.t, S);
}
