//! A CPU ray tracer whose core arithmetic is carried out in signed
//! fixed-point (16 fractional bits), so that every geometric and shading
//! computation has an exact, machine-checked contract.

pub mod camera;
pub mod fixed;
pub mod hit_record;
pub mod hittable_list;
pub mod material;
pub mod ray;
pub mod render;
pub mod rng;
pub mod sphere;
pub mod vec3;

pub use fixed::FP_ONE;
