//! Fills a single triangle into a raster image, colouring every covered
//! pixel by barycentric interpolation of the three vertex colours.
//!
//! All geometry is done in exact integer arithmetic: barycentric weights are
//! kept as fractions over a common non-negative denominator, so the inside
//! test and the interpolated channels are computed without rounding error.

/// Colours and their layout in the output pixel format.
pub mod color;
/// Points, bounding boxes, barycentric coordinates and per-point colour.
pub mod triangle;
/// The image buffer and the loop that fills a triangle into it.
pub mod raster;
/// Reading vertices written `(x, y)` and checking them against the image.
pub mod parsing;
