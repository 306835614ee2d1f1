//! A verified Mandelbrot renderer.
//!
//! The complex plane is modeled with exact decimal fixed-point numbers, so
//! every stage — mapping pixels to points, the escape-time test, band
//! partitioning, and the assembly of the pixel buffer — carries a proved
//! contract, and the rendered buffer is a single mathematical function of
//! the raster bounds and the window.

pub mod bands;
pub mod complex;
pub mod escape;
pub mod fixed;
pub mod mapper;
pub mod params;
pub mod parse;
pub mod png;
pub mod render;
