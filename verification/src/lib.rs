//! Verified core of a small offline ray tracer.
//!
//! The library holds what a render pass decides: which image dimensions are
//! valid, in which order rows, pixels and samples are visited, how deep a
//! light path may go, which of the hits along a ray is the nearest, which
//! side of a surface a ray met, and which bytes make up the raster that is
//! written. Real numbers are double-precision numbers carried as their 64
//! bits; the library compares, bounds, negates and truncates them exactly and
//! leaves their arithmetic to its caller.

pub mod double;
pub mod hittable;
pub mod image;
pub mod interval;
pub mod ppm;
pub mod random;
pub mod ray;
pub mod render;
pub mod shade;
pub mod sphere;
