//! Rays: an origin and a direction.
use vstd::prelude::*;

use crate::math::vec3::{Point3, Vec3};

verus! {

/// A half-line from `origin` along `direction`; the direction is not
/// normalised.
#[derive(Clone, Copy, Debug, PartialEq, Eq, Structural)]
pub struct Ray {
    pub origin: Point3,
    pub direction: Vec3,
}

impl Ray {
    /// The ray from `origin` along `direction`.
    pub fn new(origin: Point3, direction: Vec3) -> (r: Ray)
        ensures
            r.origin == origin,
            r.direction == direction,
    {
        Ray { origin, direction }
    }
}

} // verus!
