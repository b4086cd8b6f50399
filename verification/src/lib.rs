//! A small ray tracer over a fixed-point model of 3-D space.
//!
//! Every real-valued quantity (coordinates, colors, ray parameters) is held
//! as a signed integer in units of 1/1000, so the whole rendering core —
//! vector algebra, sphere intersection, nearest-hit resolution, the recursive
//! shading integrator and the per-pixel accumulator — is exact integer
//! arithmetic and is verified against mathematical specifications.

pub mod fixed;
pub mod vec3;
pub mod ray;
pub mod material;
pub mod sphere;
pub mod hittable;
pub mod camera;
pub mod render;
