//! The fixed world, and the decision between surface and background shading.
use vstd::prelude::*;

use crate::hittable::sphere::Sphere;
use crate::hittable::{hit_of, may_report, HitRecord, Hittable};
use crate::math::interval::Interval;
use crate::math::ray::Ray;
use crate::math::scalar::{Scalar, INFINITY_BITS};
use crate::math::vec3::Vec3;

verus! {

/// The encoding of 1.0.
pub const ONE_BITS: u32 = 0x3f80_0000;

/// The encoding of -1.0.
pub const MINUS_ONE_BITS: u32 = 0xbf80_0000;

/// The encoding of 100.0.
pub const HUNDRED_BITS: u32 = 0x42c8_0000;

/// The encoding of -100.5.
pub const GROUND_HEIGHT_BITS: u32 = 0xc2c9_0000;

/// Which of the two colour formulas applies to a ray, with the vector the
/// formula is computed from.
#[derive(Clone, Copy, Debug, PartialEq, Eq, Structural)]
pub enum Shading {
    /// The ray meets a surface: the colour shows the normal at the hit.
    Surface { normal: Vec3 },
    /// The ray meets nothing: the colour is the background gradient along the
    /// ray's direction.
    Background { direction: Vec3 },
}

/// The ray parameters at which a surface is seen: above zero, with no upper
/// limit.
pub open spec fn visible_range() -> Interval {
    Interval { min: Scalar { bits: 0 }, max: Scalar { bits: INFINITY_BITS } }
}

impl Shading {
    /// The shading for a ray, given what the world reports for it.
    pub open spec fn of_hit(hit: Option<HitRecord>, ray: Ray) -> Shading {
        match hit {
            Some(rec) => Shading::Surface { normal: rec.normal },
            None => Shading::Background { direction: ray.direction },
        }
    }

    /// The shading for a ray, given what the world reports for it.
    pub fn from_hit(hit: Option<HitRecord>, ray: &Ray) -> (r: Shading)
        ensures
            r == Shading::of_hit(hit, *ray),
    {
        match hit {
            Some(rec) => Shading::Surface { normal: rec.normal },
            None => Shading::Background { direction: ray.direction },
        }
    }
}

/// Tests the ray against the world over the visible range and says how its
/// colour is to be computed.
pub fn ray_shading(ray: &Ray, world: &dyn Hittable) -> (r: Shading)
    ensures
        exists|hit: Option<HitRecord>| #[trigger]
            may_report(world, *ray, visible_range(), hit) && r == Shading::of_hit(hit, *ray),
{
    let range = Interval::new(Scalar::zero(), Scalar::infinity());
    assert(range == visible_range());
    let hit = hit_of(world, ray, range);
    assert(may_report(world, *ray, visible_range(), hit));
    Shading::from_hit(hit, ray)
}

/// The front sphere of the fixed world: radius one, centred at (0, 0, -1).
pub open spec fn front_sphere() -> Sphere {
    Sphere {
        center: Vec3 {
            x: Scalar { bits: 0 },
            y: Scalar { bits: 0 },
            z: Scalar { bits: MINUS_ONE_BITS },
        },
        radius: Scalar { bits: ONE_BITS },
    }
}

/// The ground of the fixed world: a sphere of radius one hundred, centred at
/// (0, -100.5, -1).
pub open spec fn ground_sphere() -> Sphere {
    Sphere {
        center: Vec3 {
            x: Scalar { bits: 0 },
            y: Scalar { bits: GROUND_HEIGHT_BITS },
            z: Scalar { bits: MINUS_ONE_BITS },
        },
        radius: Scalar { bits: HUNDRED_BITS },
    }
}

/// The spheres of the fixed world: the front sphere, then the ground.
pub fn world_spheres() -> (r: Vec<Sphere>)
    ensures
        r@ == seq![front_sphere(), ground_sphere()],
{
    let zero = Scalar::zero();
    let depth = Scalar::from_bits(MINUS_ONE_BITS);
    let front = Sphere::new(Vec3::new(zero, zero, depth), Scalar::from_bits(ONE_BITS));
    let ground = Sphere::new(
        Vec3::new(zero, Scalar::from_bits(GROUND_HEIGHT_BITS), depth),
        Scalar::from_bits(HUNDRED_BITS),
    );
    let mut spheres: Vec<Sphere> = Vec::new();
    spheres.push(front);
    spheres.push(ground);
    assert(spheres@ =~= seq![front_sphere(), ground_sphere()]);
    spheres
}

} // verus!
