//! Rays: half lines from an origin along a direction.
use vstd::prelude::*;
use crate::scalar::Scalar;
use crate::vec3::Vec3;

verus! {

/// A ray: the points `origin + t * direction`.
#[derive(Clone, Copy, Debug)]
pub struct Ray {
    pub origin: Vec3,
    pub direction: Vec3,
}

impl Default for Ray {
    fn default() -> (r: Ray)
        ensures
            r == (Ray { origin: Vec3::zero_spec(), direction: Vec3::zero_spec() }),
    {
        Ray { origin: Vec3::new(), direction: Vec3::new() }
    }
}

impl Ray {
    /// The point at parameter `t`: the origin plus `t` times the direction.
    pub open spec fn at_spec(self, t: Scalar) -> Vec3 {
        self.origin.add_spec(self.direction.mul_spec(t))
    }

    /// The ray from `orig` along `dir`.
    pub fn new(orig: &Vec3, dir: &Vec3) -> (r: Ray)
        ensures
            r == (Ray { origin: *orig, direction: *dir }),
    {
        Ray { origin: *orig, direction: *dir }
    }

    /// Where the ray starts.
    pub fn origin(&self) -> (r: Vec3)
        ensures
            r == self.origin,
    {
        self.origin
    }

    /// Where the ray heads, not necessarily of length one.
    pub fn direction(&self) -> (r: Vec3)
        ensures
            r == self.direction,
    {
        self.direction
    }

    /// The point at parameter `t`.
    pub fn at(&self, t: Scalar) -> (r: Vec3)
        ensures
            r == self.at_spec(t),
    {
        self.origin + self.direction * t
    }
}

} // verus!
