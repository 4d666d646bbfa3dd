//! Spheres, and the choice between the two roots of a ray's quadratic.
use vstd::prelude::*;

use crate::math::interval::Interval;
use crate::math::scalar::Scalar;
use crate::math::vec3::Vec3;

verus! {

/// A sphere, by centre and radius.
#[derive(Clone, Copy, Debug, PartialEq, Eq, Structural)]
pub struct Sphere {
    pub center: Vec3,
    pub radius: Scalar,
}

impl Sphere {
    /// The root at which a ray is taken to meet the sphere. No root is taken
    /// where the discriminant is below zero. Otherwise the near root is taken
    /// if the range surrounds it, else the far root if the range surrounds that
    /// one, else none: a root on either end of the range is a miss.
    pub open spec fn nearest_root_spec(
        discriminant: Scalar,
        near: Scalar,
        far: Scalar,
        ray_t: Interval,
    ) -> Option<Scalar> {
        if discriminant.lt_spec(Scalar { bits: 0 }) {
            None
        } else if ray_t.surrounds_spec(near) {
            Some(near)
        } else if ray_t.surrounds_spec(far) {
            Some(far)
        } else {
            None
        }
    }

    /// The sphere with the given centre and radius.
    pub fn new(center: Vec3, radius: Scalar) -> (r: Sphere)
        ensures
            r.center == center,
            r.radius == radius,
    {
        Sphere { center, radius }
    }

    /// Chooses the ray parameter of the hit from the quadratic's discriminant
    /// and its two roots, `near` being the one with the square root subtracted.
    pub fn nearest_root(discriminant: Scalar, near: Scalar, far: Scalar, ray_t: Interval) -> (r:
        Option<Scalar>)
        ensures
            r == Self::nearest_root_spec(discriminant, near, far, ray_t),
            r matches Some(root) ==> ray_t.surrounds_spec(root) && (root == near || root == far),
            r is None <==> discriminant.lt_spec(Scalar { bits: 0 }) || (!ray_t.surrounds_spec(near)
                && !ray_t.surrounds_spec(far)),
    {
        if discriminant.lt(Scalar::zero()) {
            return None;
        }
        let mut root = near;
        if !ray_t.surrounds(root) {
            root = far;
            if !ray_t.surrounds(root) {
                return None;
            }
        }
        Some(root)
    }
}

} // verus!
