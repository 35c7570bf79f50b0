//! Pixel color types and fixed-point luminance.

use vstd::prelude::*;

verus! {

/// A four-channel color with 8-bit components, as sampled from the input.
#[derive(Clone, Copy, Debug, PartialEq, Eq, Structural)]
pub struct Rgba8 {
    pub r: u8,
    pub g: u8,
    pub b: u8,
    pub a: u8,
}

/// A three-channel color with 8-bit components, as written to the output.
#[derive(Clone, Copy, Debug, PartialEq, Eq, Structural)]
pub struct Rgb8 {
    pub r: u8,
    pub g: u8,
    pub b: u8,
}

/// Perceptual luminance of a color, scaled by 10000 so that the weights
/// 0.2126, 0.7152 and 0.0722 become the integers 2126, 7152 and 722.
pub open spec fn luma_of(p: Rgba8) -> int {
    2126 * p.r + 7152 * p.g + 722 * p.b
}

/// Computes the scaled luminance of a color.
pub fn luma_scaled(p: Rgba8) -> (l: u32)
    ensures
        l == luma_of(p),
{
    2126 * (p.r as u32) + 7152 * (p.g as u32) + 722 * (p.b as u32)
}

} // verus!
