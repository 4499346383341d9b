//! A Monte-Carlo path tracer over fixed-point arithmetic.
//!
//! Every geometric quantity is an `i64` holding the real value times
//! `fixed::SCALE`, so that the whole rendering core — vectors, rays, the
//! thin-lens camera, sphere intersection, the three scattering models and
//! the recursive color integrator — carries machine-checked contracts.

pub mod camera;
pub mod fixed;
pub mod hittable;
pub mod material;
pub mod ray;
pub mod rng;
pub mod sphere;
pub mod tracer;
pub mod vec3;
