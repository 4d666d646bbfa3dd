//! Three-component vectors, also used as points and as linear RGB colours.
use core::ops::Index;
use vstd::prelude::*;

use crate::math::scalar::Scalar;

verus! {

/// A vector of three scalars.
#[derive(Clone, Copy, Debug, PartialEq, Eq, Structural)]
pub struct Vec3 {
    pub x: Scalar,
    pub y: Scalar,
    pub z: Scalar,
}

/// A position in space.
pub type Point3 = Vec3;

/// A linear RGB colour, red in `x`, green in `y`, blue in `z`.
pub type Color = Vec3;

impl Vec3 {
    /// The component with the given index: 0 is `x`, 1 is `y`, 2 is `z`.
    pub open spec fn component(self, i: int) -> Scalar
        recommends
            0 <= i < 3,
    {
        if i == 0 {
            self.x
        } else if i == 1 {
            self.y
        } else {
            self.z
        }
    }

    /// The vector with this one's components in all but position `i`, and
    /// `value` there.
    pub open spec fn with_component(self, i: int, value: Scalar) -> Vec3
        recommends
            0 <= i < 3,
    {
        if i == 0 {
            Vec3 { x: value, y: self.y, z: self.z }
        } else if i == 1 {
            Vec3 { x: self.x, y: value, z: self.z }
        } else {
            Vec3 { x: self.x, y: self.y, z: value }
        }
    }

    /// The vector with the sign of every component flipped.
    pub open spec fn negated(self) -> Vec3 {
        Vec3 { x: self.x.neg_spec(), y: self.y.neg_spec(), z: self.z.neg_spec() }
    }

    /// The vector with the given components.
    pub fn new(x: Scalar, y: Scalar, z: Scalar) -> (r: Vec3)
        ensures
            r.x == x,
            r.y == y,
            r.z == z,
    {
        Vec3 { x, y, z }
    }
}

impl Default for Vec3 {
    /// The vector whose components are all positive zero.
    fn default() -> (r: Vec3)
        ensures
            r.x.bits == 0,
            r.y.bits == 0,
            r.z.bits == 0,
    {
        Vec3 { x: Scalar::zero(), y: Scalar::zero(), z: Scalar::zero() }
    }
}

impl vstd::std_specs::core::IndexSpecImpl<usize> for Vec3 {
    open spec fn index_req(&self, index: &usize) -> bool {
        *index < 3
    }
}

impl Index<usize> for Vec3 {
    type Output = Scalar;

    /// The component with the given index, which must be 0, 1 or 2.
    fn index(&self, i: usize) -> (r: &Scalar)
        ensures
            *r == self.component(i as int),
    {
        if i == 0 {
            &self.x
        } else if i == 1 {
            &self.y
        } else {
            &self.z
        }
    }
}

impl Vec3 {
    /// The vector with the sign of every component flipped.
    pub fn neg(self) -> (r: Vec3)
        ensures
            r == self.negated(),
    {
        Vec3 { x: self.x.neg(), y: self.y.neg(), z: self.z.neg() }
    }

    /// Replaces the component with the given index, which must be 0, 1 or 2.
    pub fn set(&mut self, i: usize, value: Scalar)
        requires
            i < 3,
        ensures
            *final(self) == old(self).with_component(i as int, value),
    {
        if i == 0 {
            self.x = value;
        } else if i == 1 {
            self.y = value;
        } else {
            self.z = value;
        }
    }
}

/// Negating twice gives the vector back, encoding for encoding.
pub proof fn lemma_neg_involutive(v: Vec3)
    ensures
        v.negated().negated() == v,
{
}

} // verus!
