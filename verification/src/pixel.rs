//! Linear-light pixels in fixed-point arithmetic.
//!
//! A channel value of 1.0 (full intensity) is the integer [`FP_ONE`].
//! Channels are signed so that diffusion residuals can be stored unclamped.

use vstd::prelude::*;

verus! {

/// Fixed-point representation of the linear-light value 1.0.
pub const FP_ONE: i64 = 65536;

/// A 3-component linear-light color value.  Arithmetic is componentwise.
#[derive(Clone, Copy, Debug, PartialEq, Eq, Structural)]
pub struct Pixel {
    pub r: i64,
    pub g: i64,
    pub b: i64,
}

/// Every channel lies in the displayable range `[0, FP_ONE]`.
pub open spec fn in_unit(p: Pixel) -> bool {
    0 <= p.r <= FP_ONE && 0 <= p.g <= FP_ONE && 0 <= p.b <= FP_ONE
}

/// Every channel has magnitude at most `m`.
pub open spec fn bounded(p: Pixel, m: int) -> bool {
    -m <= p.r <= m && -m <= p.g <= m && -m <= p.b <= m
}

/// Squared Euclidean distance between two pixels, the single distance metric
/// used throughout matching (plain linear-RGB distance, applied uniformly).
pub open spec fn dist_spec(a: Pixel, b: Pixel) -> int {
    (a.r - b.r) * (a.r - b.r) + (a.g - b.g) * (a.g - b.g) + (a.b - b.b) * (a.b - b.b)
}

/// Luminance of a pixel: the Rec. 709 weights 0.2126, 0.7152, 0.0722
/// expressed over the denominator 10000.
pub open spec fn lum_spec(p: Pixel) -> int {
    (2126 * p.r + 7152 * p.g + 722 * p.b) / 10000
}

/// `v` clamped into `[0, FP_ONE]`.
pub open spec fn clamp_chan_spec(v: int) -> int {
    if v < 0 {
        0
    } else if v > FP_ONE {
        FP_ONE as int
    } else {
        v
    }
}

/// The pixel with every channel clamped into the displayable range.
pub open spec fn clamp_spec(p: Pixel) -> Pixel {
    Pixel {
        r: clamp_chan_spec(p.r as int) as i64,
        g: clamp_chan_spec(p.g as int) as i64,
        b: clamp_chan_spec(p.b as int) as i64,
    }
}

impl Pixel {
    /// The all-zero (black) pixel.
    pub fn black() -> (p: Pixel)
        ensures
            p == (Pixel { r: 0, g: 0, b: 0 }),
    {
        Pixel { r: 0, g: 0, b: 0 }
    }

    pub fn new(r: i64, g: i64, b: i64) -> (p: Pixel)
        ensures
            p == (Pixel { r: r, g: g, b: b }),
    {
        Pixel { r, g, b }
    }

    /// Componentwise sum.
    pub fn add(self, o: Pixel) -> (p: Pixel)
        requires
            bounded(self, 0x1000_0000),
            bounded(o, 0x1000_0000),
        ensures
            p.r == self.r + o.r,
            p.g == self.g + o.g,
            p.b == self.b + o.b,
    {
        Pixel { r: self.r + o.r, g: self.g + o.g, b: self.b + o.b }
    }

    /// Componentwise difference.
    pub fn sub(self, o: Pixel) -> (p: Pixel)
        requires
            bounded(self, 0x1000_0000),
            bounded(o, 0x1000_0000),
        ensures
            p.r == self.r - o.r,
            p.g == self.g - o.g,
            p.b == self.b - o.b,
    {
        Pixel { r: self.r - o.r, g: self.g - o.g, b: self.b - o.b }
    }

    /// Every channel clamped into the displayable range `[0, FP_ONE]`.
    pub fn clamp(self) -> (p: Pixel)
        ensures
            p == clamp_spec(self),
            in_unit(p),
    {
        Pixel {
            r: clamp_chan(self.r),
            g: clamp_chan(self.g),
            b: clamp_chan(self.b),
        }
    }

    /// Squared Euclidean distance to another pixel.
    pub fn dist(self, o: Pixel) -> (d: i64)
        requires
            bounded(self, 4 * FP_ONE),
            bounded(o, 4 * FP_ONE),
        ensures
            d == dist_spec(self, o),
    {
        let dr = self.r - o.r;
        let dg = self.g - o.g;
        let db = self.b - o.b;
        proof {
            lemma_square_bound(dr as int, 8 * FP_ONE);
            lemma_square_bound(dg as int, 8 * FP_ONE);
            lemma_square_bound(db as int, 8 * FP_ONE);
        }
        dr * dr + dg * dg + db * db
    }

    /// Luminance of the pixel.
    pub fn luminance(self) -> (l: i64)
        requires
            in_unit(self),
        ensures
            l == lum_spec(self),
            0 <= l <= FP_ONE,
    {
        let n = 2126 * self.r + 7152 * self.g + 722 * self.b;
        proof {
            assert(n <= 10000 * FP_ONE);
            assert(0 <= n);
            assert(n / 10000 <= FP_ONE) by {
                vstd::arithmetic::div_mod::lemma_div_is_ordered(
                    n as int,
                    10000 * FP_ONE as int,
                    10000,
                );
                assert(10000 * FP_ONE as int / 10000 == FP_ONE);
            }
            assert(n / 10000 >= 0) by {
                vstd::arithmetic::div_mod::lemma_div_is_ordered(0, n as int, 10000);
            }
        }
        div_nonneg(n, 10000)
    }
}

/// `v` clamped into `[0, FP_ONE]`.
pub fn clamp_chan(v: i64) -> (c: i64)
    ensures
        c == clamp_chan_spec(v as int),
{
    if v < 0 {
        0
    } else if v > FP_ONE {
        FP_ONE
    } else {
        v
    }
}

/// Division of a nonnegative value by a positive divisor; on such inputs
/// the machine quotient equals the spec-level Euclidean quotient.
pub fn div_nonneg(n: i64, d: i64) -> (q: i64)
    requires
        0 < d,
        0 <= n,
    ensures
        q == n as int / d as int,
{
    n / d
}

/// Floor division by a positive divisor (the spec-level `/`), defined for
/// negative dividends too.
pub fn div_floor(n: i64, d: i64) -> (q: i64)
    requires
        0 < d <= 0x1_0000_0000,
        -0x1000_0000_0000 <= n <= 0x1000_0000_0000,
    ensures
        q as int == n as int / d as int,
{
    if n >= 0 {
        div_nonneg(n, d)
    } else {
        let m = -n;
        let q0 = div_nonneg(m + d - 1, d);
        proof {
            vstd::arithmetic::div_mod::lemma_fundamental_div_mod(m as int, d as int);
            vstd::arithmetic::div_mod::lemma_mod_division_less_than_divisor(m as int, d as int);
            let t = m as int / d as int;
            let u = m as int % d as int;
            if u == 0 {
                assert(m + d - 1 == t * d + (d - 1)) by (nonlinear_arith)
                    requires
                        m == d * t + u,
                        u == 0,
                ;
                vstd::arithmetic::div_mod::lemma_fundamental_div_mod_converse(
                    m + d - 1,
                    d as int,
                    t,
                    d - 1,
                );
                assert(n == (-t) * d + 0) by (nonlinear_arith)
                    requires
                        m == d * t + u,
                        u == 0,
                        n == -m,
                ;
                vstd::arithmetic::div_mod::lemma_fundamental_div_mod_converse(
                    n as int,
                    d as int,
                    -t,
                    0,
                );
            } else {
                assert(m + d - 1 == (t + 1) * d + (u - 1)) by (nonlinear_arith)
                    requires
                        m == d * t + u,
                ;
                vstd::arithmetic::div_mod::lemma_fundamental_div_mod_converse(
                    m + d - 1,
                    d as int,
                    t + 1,
                    u - 1,
                );
                assert(n == (-(t + 1)) * d + (d - u)) by (nonlinear_arith)
                    requires
                        m == d * t + u,
                        n == -m,
                ;
                vstd::arithmetic::div_mod::lemma_fundamental_div_mod_converse(
                    n as int,
                    d as int,
                    -(t + 1),
                    d - u,
                );
            }
        }
        -q0
    }
}

/// Distance is symmetric: `dist_spec(a, b) == dist_spec(b, a)` for all pixels.
pub proof fn lemma_dist_symmetric(a: Pixel, b: Pixel)
    ensures
        dist_spec(a, b) == dist_spec(b, a),
{
    assert((a.r - b.r) * (a.r - b.r) == (b.r - a.r) * (b.r - a.r)) by (nonlinear_arith);
    assert((a.g - b.g) * (a.g - b.g) == (b.g - a.g) * (b.g - a.g)) by (nonlinear_arith);
    assert((a.b - b.b) * (a.b - b.b) == (b.b - a.b) * (b.b - a.b)) by (nonlinear_arith);
}

/// Distance is nonnegative, and zero exactly on equal pixels.
pub proof fn lemma_dist_zero_iff_eq(a: Pixel, b: Pixel)
    ensures
        dist_spec(a, b) >= 0,
        dist_spec(a, b) == 0 <==> a == b,
{
    lemma_square_nonneg(a.r - b.r);
    lemma_square_nonneg(a.g - b.g);
    lemma_square_nonneg(a.b - b.b);
    if a == b {
        assert(dist_spec(a, b) == 0) by (nonlinear_arith)
            requires
                a.r == b.r && a.g == b.g && a.b == b.b;
    }
    if dist_spec(a, b) == 0 {
        assert((a.r - b.r) * (a.r - b.r) == 0);
        assert((a.g - b.g) * (a.g - b.g) == 0);
        assert((a.b - b.b) * (a.b - b.b) == 0);
        assert(a.r == b.r) by (nonlinear_arith)
            requires
                (a.r - b.r) * (a.r - b.r) == 0;
        assert(a.g == b.g) by (nonlinear_arith)
            requires
                (a.g - b.g) * (a.g - b.g) == 0;
        assert(a.b == b.b) by (nonlinear_arith)
            requires
                (a.b - b.b) * (a.b - b.b) == 0;
        assert(a == b);
    }
}

/// `|x| <= m` implies `x * x <= m * m`.
pub proof fn lemma_square_bound(x: int, m: int)
    requires
        -m <= x <= m,
    ensures
        0 <= x * x <= m * m,
{
    assert(0 <= x * x <= m * m) by (nonlinear_arith)
        requires
            -m <= x <= m;
}

/// Squares are nonnegative.
pub proof fn lemma_square_nonneg(x: int)
    ensures
        x * x >= 0,
{
    assert(x * x >= 0) by (nonlinear_arith);
}

} // verus!
