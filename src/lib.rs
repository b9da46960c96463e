//! Colour adjacency analysis of rendered raster images.
//!
//! An image arrives as text: whitespace-separated colour components, three
//! per pixel, row by row. Every interior pixel's 3x3 window is scanned (in
//! parallel) to learn which colours touch which; the result is the
//! complement: for each colour, the colours it never shares a window with.

pub mod complement;
pub mod graph;
pub mod image_analysis;
pub mod laws;
pub mod model;
pub mod pixels;
pub mod window;

pub use image_analysis::analyze_image;
