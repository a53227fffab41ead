//! Rays: a parametrized line through an origin along a direction.
//!
//! The direction is not required to be unit length; intersection code
//! accounts for that. The parameter may be negative (behind the origin);
//! intersection queries restrict it through their own bounds.

use vstd::prelude::*;
use crate::fixed::Fx;
use crate::vec3::{Vec3, spec_add, spec_scale};

verus! {

/// A ray: `origin + t * direction` for a scalar parameter `t`.
#[derive(Clone, Copy, Debug, PartialEq, Eq, Structural)]
pub struct Ray {
    pub origin: Vec3,
    pub direction: Vec3,
}

/// The point the ray reaches at parameter `t`.
pub open spec fn spec_point_at(ray: Ray, t: int) -> Vec3 {
    spec_add(ray.origin, spec_scale(ray.direction, t))
}

impl Ray {
    /// A ray from an origin along a direction.
    pub fn new(a: Vec3, b: Vec3) -> (r: Ray)
        ensures
            r == (Ray { origin: a, direction: b }),
    {
        Ray { origin: a, direction: b }
    }

    /// The ray's origin.
    pub fn origin(&self) -> (r: &Vec3)
        ensures
            r == self.origin,
    {
        &self.origin
    }

    /// The ray's direction.
    pub fn direction(&self) -> (r: &Vec3)
        ensures
            r == self.direction,
    {
        &self.direction
    }

    /// The point at parameter `t`: `origin + t * direction`.
    pub fn point_at_parameter(&self, t: &Fx) -> (r: Vec3)
        ensures
            r == spec_point_at(*self, *t as int),
    {
        self.origin.add(self.direction.scale(*t))
    }
}

} // verus!
