//! The camera mapping, the radiance estimator's exact cases, and an
//! end-to-end regression with a fixed seed.

use rand::rngs::StdRng;
use rand::SeedableRng;

use pathtracer::camera::Camera;
use pathtracer::material::{Lambertian, Material};
use pathtracer::ray::Ray;
use pathtracer::tracer::{build_scene, radiance};
use pathtracer::vec3::Vec3;

const S: i64 = 65536;

fn gray() -> Material {
    Material::Lambertian(Lambertian::new(&Vec3::new(S / 2, S / 2, S / 2)))
}

fn one_sphere_scene() -> Vec<pathtracer::hittable::Sphere> {
    build_scene(vec![(Vec3::new(0, 0, -S), S / 2, gray())])
}

#[test]
fn build_scene_keeps_entries() {
    let world = one_sphere_scene();
    assert_eq!(world.len(), 1);
    assert_eq!(world[0].center, Vec3::new(0, 0, -S));
    assert_eq!(world[0].radius, S / 2);
}

#[test]
fn camera_basis_and_viewport() {
    // A ninety-degree field of view, square aspect, no aperture, looking
    // down -z: the tangent polynomial puts the half-height within a
    // quarter of a thousandth of one.
    let cam = Camera::new(
        &Vec3::new(0, 0, 0),
        &Vec3::new(0, 0, -S),
        &Vec3::new(0, S, 0),
        90 * S,
        S,
        0,
        S,
    );
    assert_eq!(cam.w, Vec3::new(0, 0, S));
    assert_eq!(cam.u, Vec3::new(S, 0, 0));
    assert_eq!(cam.v, Vec3::new(0, S, 0));
    assert_eq!(cam.horizontal, Vec3::new(131104, 0, 0));
    assert_eq!(cam.vertical, Vec3::new(0, 131104, 0));
    assert_eq!(cam.lower_left_corner, Vec3::new(-65552, -65552, -S));
    assert_eq!(cam.lens_radius, 0);
}

#[test]
fn camera_center_ray() {
    let cam = Camera::new(
        &Vec3::new(0, 0, 0),
        &Vec3::new(0, 0, -S),
        &Vec3::new(0, S, 0),
        90 * S,
        S,
        0,
        S,
    );
    let ray = cam.get_ray_with(S / 2, S / 2, Vec3::zero());
    assert_eq!(ray.origin, Vec3::new(0, 0, 0));
    assert_eq!(ray.direction, Vec3::new(0, 0, -S));
}

#[test]
fn radiance_negative_depth_is_black() {
    // A spent recursion budget yields exactly black, whatever the ray or
    // the scene.
    let world = one_sphere_scene();
    let mut rng = StdRng::seed_from_u64(7);
    let ray = Ray::new(Vec3::new(0, 0, 0), Vec3::new(0, 0, -S));
    assert_eq!(radiance(&ray, &world, -1, &mut rng), Vec3::zero());
    let up = Ray::new(Vec3::new(0, 0, 0), Vec3::new(0, S, 0));
    assert_eq!(radiance(&up, &world, -1, &mut rng), Vec3::zero());
}

#[test]
fn radiance_miss_is_sky_gradient() {
    // A ray that misses everything returns the sky blend exactly: straight
    // up gives the sky color, a horizontal ray the even blend with white.
    let world = one_sphere_scene();
    let mut rng = StdRng::seed_from_u64(7);
    let up = Ray::new(Vec3::new(0, 0, 0), Vec3::new(0, S, 0));
    assert_eq!(radiance(&up, &world, 8, &mut rng), Vec3::new(32768, 45875, 65536));
    let level = Ray::new(Vec3::new(0, 0, 0), Vec3::new(S, 0, 0));
    assert_eq!(radiance(&level, &world, 8, &mut rng), Vec3::new(49152, 55705, 65536));
}

#[test]
fn sky_blend_clamped_for_short_directions() {
    // A direction far below the scale makes its unit vector overshoot; the
    // blend parameter is clamped, so the gradient stays in gamut and a
    // steeply falling short direction gives plain white.
    let world = one_sphere_scene();
    let mut rng = StdRng::seed_from_u64(7);
    let falling = Ray::new(Vec3::new(0, 0, 0), Vec3::new(0, -300, 0));
    let c = radiance(&falling, &world, 8, &mut rng);
    assert_eq!(c, Vec3::new(S, S, S));
    assert!(0 <= c.x && c.x <= S && 0 <= c.y && c.y <= S && 0 <= c.z && c.z <= S);
}

#[test]
fn render_single_lambertian_sphere_regression() {
    // End to end: one diffuse sphere under the sky gradient, a fixed-seed
    // generator, four center-pixel samples averaged as the sampling layer
    // would. The expected value is a regression oracle for this seed.
    let world = one_sphere_scene();
    let cam = Camera::new(
        &Vec3::new(0, 0, 0),
        &Vec3::new(0, 0, -S),
        &Vec3::new(0, S, 0),
        90 * S,
        S,
        0,
        S,
    );
    let mut rng = StdRng::seed_from_u64(42);
    let mut pixel = Vec3::zero();
    for _ in 0..4 {
        let ray = cam.get_ray(S / 2, S / 2, &mut rng);
        pixel.add_assign(radiance(&ray, &world, 8, &mut rng));
    }
    let average = pixel.div_s(4 * S);
    assert_eq!(average, Vec3::new(26564, 29045, 32768));
}
