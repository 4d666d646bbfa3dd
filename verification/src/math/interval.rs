//! Numeric ranges, used to bound ray parameters and to clamp colour channels.
use vstd::prelude::*;

use crate::math::scalar::Scalar;

verus! {

/// A range from `min` to `max`. Membership (`surrounds`) leaves both ends
/// out; `clamp` keeps them in.
#[derive(Clone, Copy, Debug, PartialEq, Eq, Structural)]
pub struct Interval {
    pub min: Scalar,
    pub max: Scalar,
}

impl Interval {
    /// Neither end is NaN and `min <= max`.
    pub open spec fn ordered(self) -> bool {
        self.min.le_spec(self.max)
    }

    /// `min < x < max`.
    pub open spec fn surrounds_spec(self, x: Scalar) -> bool {
        self.min.lt_spec(x) && x.lt_spec(self.max)
    }

    /// `min` where `x < min`, `max` where `x > max`, else `x` itself.
    pub open spec fn clamp_spec(self, x: Scalar) -> Scalar {
        if x.lt_spec(self.min) {
            self.min
        } else if self.max.lt_spec(x) {
            self.max
        } else {
            x
        }
    }

    /// The interval with the given ends, stored as they are.
    pub fn new(min: Scalar, max: Scalar) -> (r: Interval)
        ensures
            r.min == min,
            r.max == max,
    {
        Interval { min, max }
    }

    /// Whether `x` lies strictly between the ends.
    pub fn surrounds(&self, x: Scalar) -> (r: bool)
        ensures
            r == self.surrounds_spec(x),
            x.rank() == self.min.rank() || x.rank() == self.max.rank() ==> !r,
    {
        self.min.lt(x) && x.lt(self.max)
    }

    /// `x` moved to the nearer end where it lies outside the interval.
    pub fn clamp(&self, x: Scalar) -> (r: Scalar)
        ensures
            r == self.clamp_spec(x),
            self.ordered() && !x.nan() ==> self.min.le_spec(r) && r.le_spec(self.max),
    {
        if x.lt(self.min) {
            self.min
        } else if x.gt(self.max) {
            self.max
        } else {
            x
        }
    }
}

/// On an interval with `min <= max`, clamping any number gives a number
/// between the two ends, both included.
pub proof fn lemma_clamp_within(interval: Interval, x: Scalar)
    requires
        interval.ordered(),
        !x.nan(),
    ensures
        interval.min.le_spec(interval.clamp_spec(x)),
        interval.clamp_spec(x).le_spec(interval.max),
{
}

/// Clamping leaves a number between the two ends as it is.
pub proof fn lemma_clamp_keeps_members(interval: Interval, x: Scalar)
    requires
        interval.min.le_spec(x),
        x.le_spec(interval.max),
    ensures
        interval.clamp_spec(x) == x,
{
}

/// A number equal to either end is not surrounded: the ends are left out.
pub proof fn lemma_surrounds_excludes_ends(interval: Interval, x: Scalar)
    requires
        x.rank() == interval.min.rank() || x.rank() == interval.max.rank(),
    ensures
        !interval.surrounds_spec(x),
{
}

/// A number strictly between the two ends is surrounded.
pub proof fn lemma_surrounds_strictly_between(interval: Interval, x: Scalar)
    requires
        interval.min.lt_spec(x),
        x.lt_spec(interval.max),
    ensures
        interval.surrounds_spec(x),
{
}

} // verus!
