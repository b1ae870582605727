//! Scalar metrics computed from a single pixel.
//!
//! A pixel is four contiguous bytes: three color channels (R, G, B) and one
//! byte that is carried through unexamined.

use vstd::prelude::*;

verus! {

/// Luminance of a pixel, scaled by 6: `2*R + 3*G + B`.
///
/// The unscaled luminance is this value divided by 6; since every comparison
/// of luminances (against a limit, or between two pixels) is invariant under
/// scaling by a positive constant, the library works with the integer sum.
pub open spec fn spec_luminance(pixel: [u8; 4]) -> int {
    2 * pixel[0] + 3 * pixel[1] + pixel[2]
}

/// Weighted brightness score of a pixel: `2*R + 3*G + B`, six times the
/// mean-weighted luminance.  Monotonic in each channel; not calibrated to any
/// standard color space.
pub fn pixel_to_luminance(pixel: &[u8; 4]) -> (lum: u16)
    ensures
        lum == spec_luminance(*pixel),
        lum <= 1530,
{
    pixel[0] as u16 * 2 + pixel[1] as u16 * 3 + pixel[2] as u16
}

/// Approximate perceptual distance between a pixel's color and a reference
/// color: a weighted, sign-discarding combination of the per-channel
/// differences, with the mean red channel biasing the weights.
pub open spec fn spec_distance(pixel: [u8; 4], color: [u8; 3]) -> int {
    let rmean = (pixel[0] + color[0]) / 2;
    let r = pixel[0] - color[0];
    let g = pixel[1] - color[1];
    let b = pixel[2] - color[2];
    let v = (2 + rmean / 256) * r + 4 * g + (2 + (255 - rmean) / 256) * b;
    if v < 0 { -v } else { v }
}

/// Approximate perceptual color-difference metric between a pixel and a
/// reference color; callers use the result only for comparison.
pub fn distance_between(pixel: &[u8; 4], color: &[u8; 3]) -> (d: i16)
    ensures
        d == spec_distance(*pixel, *color),
        0 <= d <= 2040,
{
    let rmean: i16 = (pixel[0] as i16 + color[0] as i16) / 2;
    let r: i16 = pixel[0] as i16 - color[0] as i16;
    let g: i16 = pixel[1] as i16 - color[1] as i16;
    let b: i16 = pixel[2] as i16 - color[2] as i16;

    let cr: i16 = 2 + rmean / 256;
    let cb: i16 = 2 + (255 - rmean) / 256;
    assert(cr == 2 && cb == 2);
    assert(cr * r == 2 * r && cb * b == 2 * b);
    let v: i16 = cr * r + 4 * g + cb * b;
    if v < 0 {
        -v
    } else {
        v
    }
}

} // verus!
