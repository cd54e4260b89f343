//! Raster transform engine for thumbnail images: bilinear resampling and
//! duotone (two-color gradient) mapping over interleaved 8-bit RGB buffers.

use vstd::prelude::*;

pub mod bilinear;
pub mod duotone;
pub mod thumbnail;

verus! {

/// Errors surfaced by the transform operations before any pixel work begins.
#[derive(Clone, Copy, Debug, PartialEq, Eq, Structural)]
pub enum TransformError {
    /// A target width or height of 0 or 1 (the scale factor's denominator
    /// would be zero), or a supplied dimension that is not positive.
    InvalidDimension,
    /// A pixel buffer whose length is not `width * height * 3`.
    MalformedBuffer,
}

} // verus!
