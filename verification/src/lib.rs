//! A Monte-Carlo path tracer over fixed-point arithmetic.
//!
//! The scene is a list of spheres with diffuse, metallic or dielectric
//! surfaces; a camera turns image coordinates into world rays; a recursive
//! estimator follows each ray through up to a fixed number of bounces and
//! averages stochastic samples into a framebuffer of RGB bytes. All
//! geometry is carried in binary fixed-point (`fixed::SCALE` steps per
//! world unit), and every sampling decision draws from an explicitly
//! seeded deterministic generator, so a render is a pure function of
//! scene, camera and seed.

pub mod camera;
pub mod fixed;
pub mod hittable;
pub mod limits;
pub mod material;
pub mod ray;
pub mod render;
pub mod rng;
pub mod scene;
pub mod sphere;
pub mod vec3;
