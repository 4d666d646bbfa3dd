//! A minimal ray tracer core: interval tests, hit selection, nearest-hit
//! aggregation, shading decisions, pixel quantisation and the frame buffer.
//!
//! Numbers are IEEE-754 binary32 values carried by their encodings (see
//! [`math::Scalar`]); every comparison, selection and conversion on them is
//! defined and proved on the encoding.
pub mod hittable;
pub mod math;
pub mod output;
pub mod scene;
