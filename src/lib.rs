//! A color-and-shape vision pipeline: HSV band masking, Moore boundary
//! tracing, Hough circle voting over precomputed radius templates, and
//! non-maximum suppression of overlapping circle candidates.

pub mod color;
pub mod raster;
pub mod mask;
pub mod contour;
pub mod circle;
pub mod hough;
pub mod peaks;
pub mod frame;
pub mod config;
pub mod camera;
pub mod detection;
pub mod jpeg;
