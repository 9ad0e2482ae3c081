//! Conversion of bitmap images into grids of terminal character cells.
//!
//! Every cell of the output grid carries a foreground palette index, a
//! background palette index, a glyph and an invert flag, chosen so that the
//! rendered grid approximates the source image under a small fixed palette
//! and glyph set.  Quantization error is diffused across the grid in raster
//! order with the Floyd-Steinberg kernel.
//!
//! All color arithmetic is carried out in fixed point: a linear-light channel
//! value of 1.0 is represented by the integer [`pixel::FP_ONE`].

pub mod colors;
pub mod coverage;
pub mod gamma;
pub mod image;
pub mod matcher;
pub mod palette;
pub mod pixel;
pub mod quant;
pub mod render;
mod rng;

use vstd::prelude::*;

verus! {

/// A failure detected before rendering begins; no partial grid is produced.
#[derive(Clone, Copy, Debug, PartialEq, Eq, Structural)]
pub enum RenderError {
    /// The glyph coverage table came out empty or otherwise unusable.
    ConfigurationError,
    /// A zero or impossible image, cell or layout dimension.
    InvalidDimensions,
    /// A palette size that median-cut quantization cannot produce.
    UnsupportedPaletteSize,
}

} // verus!
