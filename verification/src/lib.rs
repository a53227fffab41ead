//! A Monte Carlo path tracer: vector and ray algebra, ray--sphere
//! intersection, material scattering, and a recursive radiance estimator.
//!
//! Scalars throughout are fixed-point numbers: an `i64` holding the value
//! scaled by 2^16 (see [`fixed`]). Every operation states its result exactly
//! over that representation.

pub mod camera;
pub mod fixed;
pub mod hittable;
pub mod hittable_list;
pub mod material;
pub mod ray;
pub mod rng;
pub mod tracer;
pub mod vec3;

