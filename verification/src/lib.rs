//! An offline Monte Carlo path tracer with a verified core.
//!
//! Geometry, the bounding-volume hierarchy, the material model and the
//! radiance integrator all work over Q47.16 fixed-point scalars, so every
//! arithmetic step has an exact mathematical meaning that the contracts in
//! this crate state and prove.

pub mod fixed;
pub mod vec3;
pub mod ray;
pub mod aabb;
pub mod rng;
pub mod color;
pub mod texture;
pub mod material;
pub mod hittable;
pub mod bvh;
pub mod camera;
pub mod renderer;
pub mod config;
pub mod util;
