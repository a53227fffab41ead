//! Reflection, refraction, Schlick reflectance, and the three scatter
//! rules with explicit random draws.

use pathtracer::hittable::{HitRecord, Sphere};
use pathtracer::material::{
    reflect, refract, Dielectric, Lambertian, Material, Metal,
};
use pathtracer::ray::Ray;
use pathtracer::vec3::Vec3;

const S: i64 = 65536;
const T_EPS: i64 = 66;

fn front_hit(material: Material) -> (Ray, HitRecord) {
    // A head-on hit at (0, 0, -1/2) on the sphere at (0, 0, -1): the normal
    // is +z and the convex side was struck.
    let s = Sphere::new(Vec3::new(0, 0, -S), S / 2, material);
    let ray = Ray::new(Vec3::new(0, 0, 0), Vec3::new(0, 0, -S));
    let rec = s.hit(&ray, T_EPS, i64::MAX).unwrap();
    (ray, rec)
}

#[test]
fn reflect_flips_aligned_component() {
    // For a unit normal, dot(reflect(v, n), n) == -dot(v, n).
    let v = Vec3::new(S, -S, 0);
    let n = Vec3::new(0, S, 0);
    let r = reflect(&v, &n);
    assert_eq!(r, Vec3::new(S, S, 0));
    assert_eq!(r.dot(&n), -v.dot(&n));
}

#[test]
fn reflect_flips_within_rounding_for_truncated_normal() {
    // A normal produced by normalization is unit only up to truncation
    // (here its squared length is four steps short of one); the reflected
    // dot product then misses the exact negation by a few steps, within
    // the stated bound of twelve steps plus 22/2^16 of the magnitude.
    let n = Vec3::new(4 * S, 12 * S, 3 * S).unit_vector();
    assert_eq!(n.dot(&n), S - 4);
    let v = Vec3::new(3 * S, -5 * S, 7 * S);
    let d = v.dot(&n);
    assert_eq!(d, -136117);
    let rd = reflect(&v, &n).dot(&n);
    assert_eq!(rd, 136107);
    assert_eq!(rd + d, -10);
    assert!((rd + d).abs() * S <= 12 * S + 22 * d.abs());
}

#[test]
fn refract_straight_through() {
    // At normal incidence with a unit index ratio the direction passes
    // unchanged.
    let uv = Vec3::new(0, 0, -S);
    let n = Vec3::new(0, 0, S);
    assert_eq!(refract(&uv, &n, S), Vec3::new(0, 0, -S));
}

#[test]
fn reflectance_base_value_and_grazing() {
    // reflectance(1, ior) is exactly the base reflectance r0, and the
    // reflectance grows as the cosine falls toward grazing incidence.
    let ir = 3 * S / 2;
    let r0 = Dielectric::reflectance(S, ir);
    assert_eq!(r0, 2621);
    let half = Dielectric::reflectance(S / 2, ir);
    let grazing = Dielectric::reflectance(0, ir);
    assert_eq!(half, 4587);
    assert_eq!(grazing, S);
    assert!(r0 <= half && half <= grazing);
}

#[test]
fn lambertian_scatter_diffuses() {
    let albedo = Vec3::new(S / 2, S / 4, S / 8);
    let material = Material::Lambertian(Lambertian::new(&albedo));
    let (ray, rec) = front_hit(material);
    let ball = Vec3::new(S / 4, S / 4, 0);
    let (attenuation, scattered) = material.scatter(&ray, &rec, ball, 0).unwrap();
    assert_eq!(attenuation, albedo);
    assert_eq!(scattered.origin, rec.point);
    assert_eq!(scattered.direction, Vec3::new(S / 4, S / 4, S));
}

#[test]
fn lambertian_degenerate_draw_falls_back_to_normal() {
    // A ball point exactly opposite the normal would give a zero scatter
    // direction; the normal itself is used instead.
    let material = Material::Lambertian(Lambertian::new(&Vec3::new(S / 2, S / 2, S / 2)));
    let (ray, rec) = front_hit(material);
    let ball = Vec3::new(0, 0, -S);
    let (_, scattered) = material.scatter(&ray, &rec, ball, 0).unwrap();
    assert_eq!(scattered.direction, rec.normal);
}

#[test]
fn metal_scatter_mirrors_and_absorbs() {
    let albedo = Vec3::new(S / 2, S / 2, S / 2);
    let material = Material::Metal(Metal::new(&albedo, S));
    let (ray, rec) = front_hit(material);
    // An unperturbed draw mirrors the ray straight back.
    let (attenuation, scattered) = material.scatter(&ray, &rec, Vec3::zero(), 0).unwrap();
    assert_eq!(attenuation, albedo);
    assert_eq!(scattered.direction, Vec3::new(0, 0, S));
    // A fuzz draw that cancels the mirror direction pushes the ray into the
    // surface: absorbed.
    let absorbed = material.scatter(&ray, &rec, Vec3::new(0, 0, -S), 0);
    assert!(absorbed.is_none());
}

#[test]
fn metal_fuzz_clamped_to_one() {
    let m = Metal::new(&Vec3::new(S, S, S), 3 * S);
    assert_eq!(m.fuzz, S);
    let m2 = Metal::new(&Vec3::new(S, S, S), S / 4);
    assert_eq!(m2.fuzz, S / 4);
}

#[test]
fn dielectric_reflects_below_reflectance_draw() {
    // Entering glass head-on: the reflectance is about 0.04; a uniform draw
    // of zero falls below it, so the ray reflects.
    let material = Material::Dielectric(Dielectric::new(3 * S / 2));
    let (ray, rec) = front_hit(material);
    let (attenuation, scattered) = material.scatter(&ray, &rec, Vec3::zero(), 0).unwrap();
    assert_eq!(attenuation, Vec3::new(S, S, S));
    assert_eq!(scattered.direction, Vec3::new(0, 0, S));
}

#[test]
fn dielectric_refracts_above_reflectance_draw() {
    // The same hit with a draw of one half, above the reflectance: the ray
    // refracts, and at normal incidence passes straight through.
    let material = Material::Dielectric(Dielectric::new(3 * S / 2));
    let (ray, rec) = front_hit(material);
    let (_, scattered) = material.scatter(&ray, &rec, Vec3::zero(), S / 2).unwrap();
    assert_eq!(scattered.direction, Vec3::new(0, 0, -S));
}

#[test]
fn dielectric_total_internal_reflection() {
    // Leaving glass at forty-five degrees: the refraction ratio times the
    // sine exceeds one, so the ray must reflect whatever the draw.
    let material = Material::Dielectric(Dielectric::new(3 * S / 2));
    let ray = Ray::new(Vec3::new(0, 0, S), Vec3::new(46341, 0, -46341));
    // The outward geometric normal points along the ray: the ray leaves
    // through the surface, so the stored record is back-face.
    let rec = HitRecord::new(S, Vec3::new(0, 0, 0), Vec3::new(0, 0, -S), material, &ray);
    assert!(!rec.front_face);
    assert_eq!(rec.normal, Vec3::new(0, 0, S));
    let (_, scattered) = material.scatter(&ray, &rec, Vec3::zero(), S - 1).unwrap();
    assert_eq!(scattered.direction, Vec3::new(46341, 0, 46341));
}
