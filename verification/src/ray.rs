//! Rays: half-lines given by an origin and a direction.

use vstd::prelude::*;
use crate::fixed::Fixed;
use crate::vec::Vec3;

verus! {

/// The points `origin + t * direction`.
#[derive(Clone, Copy, Debug, PartialEq, Eq, Structural)]
pub struct Ray {
    pub origin: Vec3,
    pub direction: Vec3,
}

impl Ray {
    /// The point at parameter `t`: `origin + t * direction`.
    pub open spec fn at_spec(self, t: Fixed) -> Vec3 {
        self.origin.plus(self.direction.scaled(t))
    }

    /// The ray from `origin` along `direction`.
    pub fn new(origin: &Vec3, direction: &Vec3) -> (r: Ray)
        ensures
            r == (Ray { origin: *origin, direction: *direction }),
    {
        Ray { origin: *origin, direction: *direction }
    }

    /// The point of the ray at parameter `t`.
    pub fn at(&self, t: Fixed) -> (r: Vec3)
        ensures
            r == self.at_spec(t),
    {
        self.origin + self.direction * t
    }
}

} // verus!
