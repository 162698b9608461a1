//! The normalization scale law: a target resolution and an integer quality
//! factor Q in 3..=10 determine the output raster dimensions as
//! floor(target * Q / 10). Q = 10 reproduces the target unchanged.

use vstd::prelude::*;

verus! {

/// A raster resolution: width and height in pixels.
#[derive(Clone, Copy, PartialEq, Eq, Structural, Debug)]
pub struct Dim {
    pub width: u32,
    pub height: u32,
}

/// Smallest accepted quality factor.
pub const QUALITY_MIN: u8 = 3;

/// Largest accepted quality factor; reproduces the target resolution unchanged.
pub const QUALITY_MAX: u8 = 10;

/// One scaled side: floor(side * quality / 10).
pub open spec fn scaled_side(side: u32, quality: u8) -> int {
    side * quality / 10
}

/// The scale law applied to both sides of a target resolution.
pub open spec fn scaled_dim(target: Dim, quality: u8) -> Dim {
    Dim {
        width: scaled_side(target.width, quality) as u32,
        height: scaled_side(target.height, quality) as u32,
    }
}

/// A scaled side never exceeds the side it was scaled from, so the spec-level
/// cast back to `u32` in `scaled_dim` loses nothing.
pub proof fn lemma_scaled_side_bounded(side: u32, quality: u8)
    requires
        quality <= QUALITY_MAX,
    ensures
        0 <= scaled_side(side, quality) <= side,
{
    assert(side * quality <= side * 10) by (nonlinear_arith)
        requires quality <= 10,
    ;
}

/// Quality 10 reproduces every side unchanged.
pub proof fn lemma_scaled_side_identity(side: u32)
    ensures
        scaled_side(side, QUALITY_MAX) == side,
{
}

/// Compute the output dimensions for one target resolution and quality factor.
pub fn scale_resolution(target: Dim, quality: u8) -> (r: Dim)
    requires
        QUALITY_MIN <= quality <= QUALITY_MAX,
    ensures
        r == scaled_dim(target, quality),
        r.width <= target.width,
        r.height <= target.height,
{
    proof {
        lemma_scaled_side_bounded(target.width, quality);
        lemma_scaled_side_bounded(target.height, quality);
    }
    let w: u64 = target.width as u64 * quality as u64 / 10;
    let h: u64 = target.height as u64 * quality as u64 / 10;
    Dim { width: w as u32, height: h as u32 }
}

} // verus!
