//! Color spaces and the transforms between them.
//!
//! The marker types name the spaces a pixel value can live in: gamma-encoded
//! sRGB bytes, linear-light RGB, CIE XYZ, CIE xyY and CIE Lab.  The
//! transforms here move linear RGB to XYZ and back with the standard D65
//! matrices in fixed point.  The matching pipeline itself measures distance
//! in plain linear RGB, uniformly; the XYZ transforms are provided for
//! callers that want chromaticity information.

use vstd::prelude::*;

use crate::pixel::{FP_ONE, Pixel, div_floor};

verus! {

/// The CIE xyY chromaticity-plus-luminance space.
#[allow(non_camel_case_types)]
#[derive(Clone, Copy, Debug, PartialEq, Eq, Structural)]
pub struct xyY;

/// Gamma-encoded sRGB, as image files and displays carry it.
#[allow(non_camel_case_types)]
#[derive(Clone, Copy, Debug, PartialEq, Eq, Structural)]
pub struct sRGB;

/// Linear-light RGB: value proportional to physical intensity.
#[derive(Clone, Copy, Debug, PartialEq, Eq, Structural)]
pub struct RGB;

/// The CIE 1931 XYZ space.
#[derive(Clone, Copy, Debug, PartialEq, Eq, Structural)]
pub struct XYZ;

/// The CIE Lab perceptual space.
#[derive(Clone, Copy, Debug, PartialEq, Eq, Structural)]
pub struct Lab;

/// One row of a fixed-point matrix applied to a pixel: the dot product,
/// scaled back down by `FP_ONE` with floor rounding.
pub open spec fn mat_row_spec(m0: int, m1: int, m2: int, p: Pixel) -> int {
    (m0 * p.r + m1 * p.g + m2 * p.b) / (FP_ONE as int)
}

/// Applies one matrix row to a pixel.
fn mat_row(m0: i64, m1: i64, m2: i64, p: Pixel) -> (v: i64)
    requires
        -0x40000 <= m0 <= 0x40000,
        -0x40000 <= m1 <= 0x40000,
        -0x40000 <= m2 <= 0x40000,
        crate::pixel::bounded(p, 4 * FP_ONE),
    ensures
        v as int == mat_row_spec(m0 as int, m1 as int, m2 as int, p),
{
    proof {
        assert(-0x40000 * (4 * FP_ONE) <= m0 * p.r <= 0x40000 * (4 * FP_ONE))
            by (nonlinear_arith)
            requires
                -0x40000 <= m0 <= 0x40000,
                -4 * FP_ONE <= p.r <= 4 * FP_ONE,
        ;
        assert(-0x40000 * (4 * FP_ONE) <= m1 * p.g <= 0x40000 * (4 * FP_ONE))
            by (nonlinear_arith)
            requires
                -0x40000 <= m1 <= 0x40000,
                -4 * FP_ONE <= p.g <= 4 * FP_ONE,
        ;
        assert(-0x40000 <= m2 <= 0x40000 && -4 * FP_ONE <= p.b <= 4 * FP_ONE ==> -0x40000 * (4
            * FP_ONE) <= m2 * p.b <= 0x40000 * (4 * FP_ONE)) by (nonlinear_arith);
    }
    div_floor(m0 * p.r + m1 * p.g + m2 * p.b, FP_ONE)
}

/// The linear-RGB to XYZ transform (sRGB primaries, D65 white), in fixed
/// point.
pub open spec fn to_xyz_spec(p: Pixel) -> Pixel {
    Pixel {
        r: mat_row_spec(27026, 23435, 11826, p) as i64,
        g: mat_row_spec(13935, 46870, 4730, p) as i64,
        b: mat_row_spec(1267, 7812, 62284, p) as i64,
    }
}

/// The XYZ to linear-RGB transform (inverse of [`to_xyz_spec`]'s matrix),
/// in fixed point.
pub open spec fn to_rgb_spec(p: Pixel) -> Pixel {
    Pixel {
        r: mat_row_spec(212402, -100755, -32677, p) as i64,
        g: mat_row_spec(-63519, 122941, 2723, p) as i64,
        b: mat_row_spec(3646, -13370, 69281, p) as i64,
    }
}

/// Converts a linear-RGB pixel to XYZ.
pub fn to_xyz(p: Pixel) -> (q: Pixel)
    requires
        crate::pixel::bounded(p, 4 * FP_ONE),
    ensures
        q == to_xyz_spec(p),
{
    Pixel {
        r: mat_row(27026, 23435, 11826, p),
        g: mat_row(13935, 46870, 4730, p),
        b: mat_row(1267, 7812, 62284, p),
    }
}

/// Converts an XYZ pixel to linear RGB.
pub fn to_rgb(p: Pixel) -> (q: Pixel)
    requires
        crate::pixel::bounded(p, 4 * FP_ONE),
    ensures
        q == to_rgb_spec(p),
{
    Pixel {
        r: mat_row(212402, -100755, -32677, p),
        g: mat_row(-63519, 122941, 2723, p),
        b: mat_row(3646, -13370, 69281, p),
    }
}

} // verus!
