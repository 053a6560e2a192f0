//! The exact core of a software renderer for procedurally shaded planets.
//!
//! Everything here computes in integers: screen positions in sub-pixel
//! units, depths on an integer scale, colours in bytes. The transform of
//! vertices and the synthesis of surface colours work in floating point and
//! belong to the caller, which hands over transformed vertices and a function
//! that shades a fragment.
//!
//! * [`geometry`]: screen-space triangles, barycentric coordinates, coverage.
//! * [`raster`]: the fragments of a triangle in a viewport; [`coverage`] says
//!   what holds of them.
//! * [`framebuffer`]: colour and depth cells behind a depth test.
//! * [`pipeline`]: triangle assembly, rasterization of a mesh, drawing.
//! * [`shading`], [`color`], [`noise`]: surfaces, palettes, bytes, noise
//!   settings.
//! * [`control`]: what a frame does with the keys that are held.

pub mod arith;
pub mod color;
pub mod control;
pub mod coverage;
pub mod framebuffer;
pub mod geometry;
pub mod noise;
pub mod pipeline;
pub mod raster;
pub mod shading;
