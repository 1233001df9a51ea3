//! A small offline ray tracer over fixed-point arithmetic.
//!
//! Rays are fired into a static scene of spheres and planes; the nearest
//! intersection is shaded with a Phong-like local model, point-light
//! shadowing (hard or jitter-sampled soft), and one recursive reflective
//! bounce, yielding a clamped colour per pixel.
//!
//! Every coordinate is a real number held as an `i64` scaled by
//! `fixed::FP_ONE`, so each operation has an exact integer-level contract;
//! the global properties of the tracer are stated and proved in `laws`.

use vstd::prelude::*;

pub mod camera;
pub mod fixed;
pub mod geom;
pub mod laws;
pub mod scene;
pub mod shade;
pub mod vector;

verus! {

} // verus!
