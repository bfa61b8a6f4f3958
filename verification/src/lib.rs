//! A Monte-Carlo path tracer over exact fixed-point arithmetic.
//!
//! The renderer casts camera rays into a scene of spheres, simulates light
//! scattering at each hit (diffuse, reflective and refractive materials),
//! and accumulates per-pixel colours tile by tile. All scalar arithmetic is
//! fixed-point over `i64`, so every stage of the pipeline carries a proved
//! contract; sampling is driven by a deterministic, seedable generator so a
//! render is reproducible from its seed.

use vstd::prelude::*;

pub mod camera;
pub mod fixed;
pub mod hitrecord;
pub mod hittable;
pub mod hittable_list;
pub mod imagebuf;
pub mod material;
pub mod ray;
pub mod render;
pub mod rng;
pub mod scenes;
pub mod sphere;
pub mod vec3;
