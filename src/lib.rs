//! The geometric and shading core of a Monte Carlo path tracer, in exact
//! fixed-point arithmetic.
//!
//! Every coordinate, ray parameter, density and colour channel is an `i64`
//! holding a multiple of `1 / ONE`. Geometry lives in the cube
//! `[-LIM, LIM]^3`. All operations are proved free of overflow, and their
//! results are stated exactly over mathematical integers.
//!
//! - `fixed`: rounding division, integer square root, fixed-point products.
//! - `vec3`, `ray`: vectors and rays.
//! - `aabb`: boxes, their union and the exact slab test.
//! - `hittable`, `moving_sphere`, `cuboid`, `hittable_list`, `bvh`,
//!   `constant_medium`: primitives, decorators, lists, the bounding-volume
//!   hierarchy and fog volumes.
//! - `onb`, `pdf`, `material`: orthonormal bases, the cosine density,
//!   reflection, refraction and glass.
//! - `perlin`, `texture`: the random tables of lattice noise, and solid colour.
//! - `camera`, `integrator`: the thin-lens camera and the path integrator
//!   over a scene's materials.
//! - `color`: the plain-text pixel-map output.
//! - `rng`: the random source.

pub mod fixed;
pub mod vec3;
pub mod ray;
pub mod aabb;
pub mod hittable;
pub mod moving_sphere;
pub mod constant_medium;
pub mod cuboid;
pub mod bvh;
pub mod hittable_list;
pub mod rng;
pub mod onb;
pub mod color;
pub mod pdf;
pub mod material;
pub mod integrator;
pub mod camera;
pub mod perlin;
pub mod texture;
