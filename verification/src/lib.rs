//! An offline Monte Carlo path tracer over fixed-point arithmetic: spheres
//! under diffuse, metallic and dielectric materials, rendered by recursive
//! ray casting into a plain-text image.

pub mod camera;
pub mod color;
pub mod constants;
pub mod fixed;
pub mod hittable;
pub mod hittable_list;
pub mod interval;
pub mod material;
pub mod math;
pub mod ray;
pub mod rng;
pub mod sphere;
pub mod utility;

pub use color::Color;
pub use color::color;
pub use ray::Ray;
