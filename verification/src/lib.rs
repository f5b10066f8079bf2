//! A fixed-point ray tracer.
//!
//! Scenes of spheres with diffuse, metallic and refractive surfaces are
//! rendered by tracing jittered sample rays. All arithmetic is done on
//! saturating fixed-point numbers, and all randomness comes from an explicit
//! deterministic generator, so an image is a function of the scene, the
//! camera and the seed.

use vstd::prelude::*;

pub mod accuracy;
pub mod camera;
pub mod color;
pub mod fixed;
pub mod hittable;
pub mod interval;
pub mod material;
pub mod ray;
pub mod rng;
pub mod text;
pub mod vec;

verus! {

/// A position in space.
pub type Point3 = vec::Vec3;

/// A color, as red, green and blue in `x`, `y` and `z`.
pub type Color = vec::Vec3;

} // verus!
