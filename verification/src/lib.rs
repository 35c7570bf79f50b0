//! An edge-preserving smoothing filter for raster images.
//!
//! Each output pixel is the mean color of whichever of four directional
//! neighborhood quadrants around the input pixel has the lowest luminance
//! spread. Flat regions are averaged while edges survive, because an edge
//! always leaves at least one quadrant with a high spread that the selector
//! avoids. All arithmetic is exact: luminance is kept in fixed-point integer
//! units and quadrant spreads are compared as rational numbers, so every
//! step of the filter carries a proved contract.

pub mod color;
pub mod frac;
pub mod grid;
pub mod kernel;
pub mod laws;
pub mod pipeline;
pub mod sampler;
pub mod selector;
pub mod stats;

use vstd::prelude::*;

verus! {

/// Largest width or height of a pixel grid the filter accepts; keeps every
/// pixel index within `usize` range and every channel and luminance
/// accumulator within 128-bit integer range.
pub const MAX_DIM: u32 = 32768;

} // verus!
