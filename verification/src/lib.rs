//! A ray tracer for scenes of spheres under one directional light.
//!
//! The library holds the scene and the camera, packs them into the flat
//! buffers that a kernel reads, and says what comes of running the kernel.
//! It also is such a kernel: it casts the ray through a pixel, finds what
//! the ray strikes first and gives the pixel its color, in single-precision
//! arithmetic that is computed on bit patterns and specified over the
//! numbers that they denote. Only sines, cosines and arcsines are asked of
//! the caller.

pub mod arith;
pub mod bounds;
pub mod camera;
pub mod cframe;
pub mod controls;
pub mod error;
pub mod frame;
pub mod intersect;
pub mod kernel;
pub mod light;
pub mod project;
pub mod render;
pub mod renderer;
pub mod report;
pub mod rounding;
pub mod scalar;
pub mod shade;
pub mod sphere;
pub mod vector;
pub mod world;
