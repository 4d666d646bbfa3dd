//! Numeric primitives: encoded scalars, vectors, intervals and rays.
pub mod interval;
pub mod ray;
pub mod scalar;
pub mod vec3;

pub use interval::Interval;
pub use ray::Ray;
pub use scalar::Scalar;
pub use vec3::{Color, Point3, Vec3};
