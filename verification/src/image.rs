//! Linear-light images and resampling.
//!
//! An image is a row-major pixel buffer.  The resampler grows a source image
//! to an exact cell-aligned size by copying rows onto a black canvas, then
//! shrinks it by replacing each cell-sized block with its arithmetic mean,
//! yielding one linear-light pixel per terminal cell.

use vstd::prelude::*;

use crate::RenderError;
use crate::gamma::Table;
use crate::pixel::{FP_ONE, Pixel, div_nonneg, in_unit};

verus! {

/// A width by height, row-major buffer of displayable linear-light pixels.
pub struct Image {
    pub width: usize,
    pub height: usize,
    pub pixels: Vec<Pixel>,
}

impl Image {
    /// Well-formedness: the buffer covers the dimensions exactly and every
    /// pixel is displayable.
    pub open spec fn wf(self) -> bool {
        &&& self.pixels@.len() == self.width * self.height
        &&& forall|i: int| 0 <= i < self.pixels@.len() ==> in_unit(#[trigger] self.pixels@[i])
    }

    /// The image width in pixels.
    pub fn width(&self) -> (w: usize)
        ensures
            w == self.width,
    {
        self.width
    }

    /// The image height in pixels.
    pub fn height(&self) -> (h: usize)
        ensures
            h == self.height,
    {
        self.height
    }

    /// The pixel at `(x, y)`, or black when the position lies outside the
    /// image.
    pub fn get(&self, x: usize, y: usize) -> (p: Pixel)
        requires
            self.wf(),
        ensures
            x < self.width && y < self.height ==> p == self.pixels@[y * self.width + x],
            !(x < self.width && y < self.height) ==> p == (Pixel { r: 0, g: 0, b: 0 }),
    {
        let n = self.pixels.len();
        if x < self.width && y < self.height {
            proof {
                assert(y * self.width + x < self.width * self.height) by (nonlinear_arith)
                    requires
                        y < self.height,
                        x < self.width,
                        self.width >= 0,
                ;
                assert(self.width * self.height == n);
            }
            self.pixels[y * self.width + x]
        } else {
            Pixel { r: 0, g: 0, b: 0 }
        }
    }

    /// Decodes an sRGB byte-triple buffer into a linear-light image.
    pub fn from_srgb(img: &Vec<(u8, u8, u8)>, width: usize, height: usize, table: &Table)
        -> (r: Image)
        requires
            table.wf(),
            img@.len() == width * height,
        ensures
            r.wf(),
            r.width == width,
            r.height == height,
            forall|i: int|
                0 <= i < img@.len() ==> #[trigger] r.pixels@[i] == crate::palette::decoded_triple(
                    *table,
                    img@[i],
                ),
    {
        let mut pixels: Vec<Pixel> = Vec::new();
        let mut i: usize = 0;
        while i < img.len()
            invariant
                table.wf(),
                img@.len() == width * height,
                0 <= i <= img@.len(),
                pixels@.len() == i,
                forall|k: int|
                    0 <= k < i ==> #[trigger] pixels@[k] == crate::palette::decoded_triple(
                        *table,
                        img@[k],
                    ),
                forall|k: int| 0 <= k < i ==> in_unit(#[trigger] pixels@[k]),
            decreases img@.len() - i,
        {
            let (r, g, b) = img[i];
            pixels.push(table.decode_px(r, g, b));
            i = i + 1;
        }
        Image { width, height, pixels }
    }

    /// Grows the image onto a `nw` by `nh` black canvas, keeping the source
    /// rows at the top left and leaving the uncovered area black.
    pub fn increase_size(&self, nw: usize, nh: usize) -> (r: Image)
        requires
            self.wf(),
            self.width <= nw,
            self.height <= nh,
        ensures
            r.wf(),
            r.width == nw,
            r.height == nh,
            forall|x: int, y: int|
                0 <= x < nw && 0 <= y < nh ==> #[trigger] r.pixels@[y * nw + x] == (if x
                    < self.width && y < self.height {
                    self.pixels@[y * self.width + x]
                } else {
                    Pixel { r: 0, g: 0, b: 0 }
                }),
    {
        let mut pixels: Vec<Pixel> = Vec::new();
        let mut y: usize = 0;
        while y < nh
            invariant
                self.wf(),
                self.width <= nw,
                self.height <= nh,
                0 <= y <= nh,
                pixels@.len() == y * nw,
                forall|xx: int, yy: int|
                    0 <= xx < nw && 0 <= yy < y ==> #[trigger] pixels@[yy * nw + xx] == (if xx
                        < self.width && yy < self.height {
                        self.pixels@[yy * self.width + xx]
                    } else {
                        Pixel { r: 0, g: 0, b: 0 }
                    }),
                forall|k: int| 0 <= k < pixels@.len() ==> in_unit(#[trigger] pixels@[k]),
            decreases nh - y,
        {
            let mut x: usize = 0;
            proof {
                assert(y * nw + nw == (y + 1) * nw) by (nonlinear_arith);
            }
            while x < nw
                invariant
                    self.wf(),
                    self.width <= nw,
                    self.height <= nh,
                    y < nh,
                    0 <= x <= nw,
                    pixels@.len() == y * nw + x,
                    forall|xx: int, yy: int|
                        0 <= xx < nw && 0 <= yy < y ==> #[trigger] pixels@[yy * nw + xx] == (if xx
                            < self.width && yy < self.height {
                            self.pixels@[yy * self.width + xx]
                        } else {
                            Pixel { r: 0, g: 0, b: 0 }
                        }),
                    forall|xx: int|
                        0 <= xx < x ==> #[trigger] pixels@[y * nw + xx] == (if xx < self.width && y
                            < self.height {
                            self.pixels@[y * self.width + xx]
                        } else {
                            Pixel { r: 0, g: 0, b: 0 }
                        }),
                    forall|k: int| 0 <= k < pixels@.len() ==> in_unit(#[trigger] pixels@[k]),
                decreases nw - x,
            {
                let p = self.get(x, y);
                proof {
                    if x < self.width && y < self.height {
                        assert(y * self.width + x < self.width * self.height)
                            by (nonlinear_arith)
                            requires
                                y < self.height,
                                x < self.width,
                                self.width >= 0,
                        ;
                    }
                    assert(in_unit(p));
                }
                pixels.push(p);
                proof {
                    assert forall|xx: int, yy: int|
                        0 <= xx < nw && 0 <= yy < y implies #[trigger] pixels@[yy * nw + xx] == (
                    if xx < self.width && yy < self.height {
                        self.pixels@[yy * self.width + xx]
                    } else {
                        Pixel { r: 0, g: 0, b: 0 }
                    }) by {
                        assert(yy * nw + xx < y * nw + x) by (nonlinear_arith)
                            requires
                                0 <= xx < nw,
                                0 <= yy < y,
                                0 <= x,
                        ;
                    }
                }
                x = x + 1;
            }
            y = y + 1;
        }
        proof {
            assert(nh * nw == nw * nh) by (nonlinear_arith);
        }
        Image { width: nw, height: nh, pixels }
    }

    /// The mean of the `fw` by `fh` block of this image whose top-left pixel
    /// is `(bx, by)`, as the block-average shrink computes it.
    pub open spec fn block_mean(self, bx: int, by: int, fw: int, fh: int) -> Pixel {
        let s = self.block_sum(bx, by, fw, fh);
        Pixel {
            r: (s.0 / (fw * fh)) as i64,
            g: (s.1 / (fw * fh)) as i64,
            b: (s.2 / (fw * fh)) as i64,
        }
    }

    /// Componentwise sum over the `fw` by `fh` block at `(bx, by)`, row by
    /// row.
    pub open spec fn block_sum(self, bx: int, by: int, fw: int, fh: int) -> (int, int, int)
        decreases fh,
    {
        if fh <= 0 {
            (0, 0, 0)
        } else {
            let rest = self.block_sum(bx, by, fw, fh - 1);
            let row = self.row_sum(bx, by + fh - 1, fw);
            (rest.0 + row.0, rest.1 + row.1, rest.2 + row.2)
        }
    }

    /// Componentwise sum over `fw` pixels of row `y` starting at `x0`.
    pub open spec fn row_sum(self, x0: int, y: int, n: int) -> (int, int, int)
        decreases n,
    {
        if n <= 0 {
            (0, 0, 0)
        } else {
            let rest = self.row_sum(x0, y, n - 1);
            let p = self.pixels@[y * self.width + x0 + n - 1];
            (rest.0 + p.r, rest.1 + p.g, rest.2 + p.b)
        }
    }

    /// Shrinks the image by the integer factors `(fw, fh)`: each `fw` by
    /// `fh` block becomes the arithmetic mean of its pixels.
    pub fn shrink_factor(&self, fw: usize, fh: usize) -> (r: Result<Image, RenderError>)
        requires
            self.wf(),
            fw * fh <= 0x100000,
        ensures
            r is Ok <==> fw >= 1 && fh >= 1,
            r is Err ==> r == Result::<Image, RenderError>::Err(RenderError::InvalidDimensions),
            r is Ok ==> {
                &&& r->Ok_0.wf()
                &&& r->Ok_0.width == self.width / fw
                &&& r->Ok_0.height == self.height / fh
                &&& forall|x: int, y: int|
                    0 <= x < self.width / fw && 0 <= y < self.height / fh
                        ==> #[trigger] r->Ok_0.pixels@[y * ((self.width / fw) as int) + x]
                        == self.block_mean(x * fw, y * fh, fw as int, fh as int)
            },
    {
        if fw == 0 || fh == 0 {
            return Err(RenderError::InvalidDimensions);
        }
        let nw = self.width / fw;
        let nh = self.height / fh;
        let mut pixels: Vec<Pixel> = Vec::new();
        let mut y: usize = 0;
        while y < nh
            invariant
                self.wf(),
                1 <= fw,
                1 <= fh,
                fw * fh <= 0x100000,
                nw == self.width / fw,
                nh == self.height / fh,
                0 <= y <= nh,
                pixels@.len() == y * nw,
                forall|xx: int, yy: int|
                    0 <= xx < nw && 0 <= yy < y ==> #[trigger] pixels@[yy * nw + xx]
                        == self.block_mean(xx * fw, yy * fh, fw as int, fh as int),
                forall|k: int| 0 <= k < pixels@.len() ==> in_unit(#[trigger] pixels@[k]),
            decreases nh - y,
        {
            let mut x: usize = 0;
            while x < nw
                invariant
                    self.wf(),
                    1 <= fw,
                    1 <= fh,
                    fw * fh <= 0x100000,
                    nw == self.width / fw,
                    nh == self.height / fh,
                    y < nh,
                    0 <= x <= nw,
                    pixels@.len() == y * nw + x,
                    forall|xx: int, yy: int|
                        0 <= xx < nw && 0 <= yy < y ==> #[trigger] pixels@[yy * nw + xx]
                            == self.block_mean(xx * fw, yy * fh, fw as int, fh as int),
                    forall|xx: int|
                        0 <= xx < x ==> #[trigger] pixels@[y * nw + xx] == self.block_mean(
                            xx * fw,
                            y * fh,
                            fw as int,
                            fh as int,
                        ),
                    forall|k: int| 0 <= k < pixels@.len() ==> in_unit(#[trigger] pixels@[k]),
                decreases nw - x,
            {
                proof {
                    vstd::arithmetic::div_mod::lemma_fundamental_div_mod(
                        self.width as int,
                        fw as int,
                    );
                    vstd::arithmetic::div_mod::lemma_mod_division_less_than_divisor(
                        self.width as int,
                        fw as int,
                    );
                    assert(nw * fw <= self.width) by (nonlinear_arith)
                        requires
                            self.width as int == (fw as int) * ((self.width as int) / (
                            fw as int)) + (self.width as int) % (fw as int),
                            (self.width as int) % (fw as int) >= 0,
                            nw as int == (self.width as int) / (fw as int),
                    ;
                    assert(x * fw + fw == (x + 1) * fw) by (nonlinear_arith);
                    assert((x + 1) * fw <= nw * fw) by (nonlinear_arith)
                        requires
                            x + 1 <= nw,
                            fw >= 0,
                    ;
                    vstd::arithmetic::div_mod::lemma_fundamental_div_mod(
                        self.height as int,
                        fh as int,
                    );
                    vstd::arithmetic::div_mod::lemma_mod_division_less_than_divisor(
                        self.height as int,
                        fh as int,
                    );
                    assert(nh * fh <= self.height) by (nonlinear_arith)
                        requires
                            self.height as int == (fh as int) * ((self.height as int) / (
                            fh as int)) + (self.height as int) % (fh as int),
                            (self.height as int) % (fh as int) >= 0,
                            nh as int == (self.height as int) / (fh as int),
                    ;
                    assert(y * fh + fh == (y + 1) * fh) by (nonlinear_arith);
                    assert((y + 1) * fh <= nh * fh) by (nonlinear_arith)
                        requires
                            y + 1 <= nh,
                            fh >= 0,
                    ;
                }
                let p = self.block_average(x * fw, y * fh, fw, fh);
                pixels.push(p);
                proof {
                    assert forall|xx: int, yy: int|
                        0 <= xx < nw && 0 <= yy < y implies #[trigger] pixels@[yy * nw + xx]
                        == self.block_mean(xx * fw, yy * fh, fw as int, fh as int) by {
                        assert(yy * nw + xx < y * nw + x) by (nonlinear_arith)
                            requires
                                0 <= xx < nw,
                                0 <= yy < y,
                                0 <= x,
                        ;
                    }
                }
                x = x + 1;
            }
            proof {
                assert(y * nw + nw == (y + 1) * nw) by (nonlinear_arith);
            }
            y = y + 1;
        }
        proof {
            assert(nh * nw == nw * nh) by (nonlinear_arith);
        }
        Ok(Image { width: nw, height: nh, pixels })
    }

    /// A row segment's componentwise sum lies between 0 and `n * FP_ONE`.
    proof fn lemma_row_sum_bounds(self, x0: int, y: int, n: int)
        requires
            self.wf(),
            n >= 0,
            y >= 0,
            x0 >= 0,
            y * self.width + x0 + n <= self.pixels@.len(),
        ensures
            0 <= self.row_sum(x0, y, n).0 <= n * FP_ONE,
            0 <= self.row_sum(x0, y, n).1 <= n * FP_ONE,
            0 <= self.row_sum(x0, y, n).2 <= n * FP_ONE,
        decreases n,
    {
        if n > 0 {
            self.lemma_row_sum_bounds(x0, y, n - 1);
            assert((n - 1) * FP_ONE + FP_ONE == n * FP_ONE) by (nonlinear_arith);
        } else {
            assert(n * FP_ONE >= 0) by (nonlinear_arith)
                requires
                    n >= 0;
        }
    }

    /// A block's componentwise sum lies between 0 and its area times
    /// `FP_ONE`.
    proof fn lemma_block_sum_bounds(self, bx: int, by: int, fw: int, fh: int)
        requires
            self.wf(),
            fw >= 0,
            fh >= 0,
            bx >= 0,
            by >= 0,
            bx + fw <= self.width,
            by + fh <= self.height,
        ensures
            0 <= self.block_sum(bx, by, fw, fh).0 <= fw * fh * FP_ONE,
            0 <= self.block_sum(bx, by, fw, fh).1 <= fw * fh * FP_ONE,
            0 <= self.block_sum(bx, by, fw, fh).2 <= fw * fh * FP_ONE,
        decreases fh,
    {
        if fh > 0 {
            self.lemma_block_sum_bounds(bx, by, fw, fh - 1);
            assert((by + fh - 1) * self.width + bx + fw <= self.width * self.height)
                by (nonlinear_arith)
                requires
                    by + fh <= self.height,
                    bx + fw <= self.width,
                    fh >= 1,
                    self.width >= 0,
                    by >= 0,
            ;
            self.lemma_row_sum_bounds(bx, by + fh - 1, fw);
            assert(fw * (fh - 1) * FP_ONE + fw * FP_ONE == fw * fh * FP_ONE) by (nonlinear_arith);
        } else {
            assert(fw * fh * FP_ONE >= 0) by (nonlinear_arith)
                requires
                    fw >= 0,
                    fh >= 0;
        }
    }

    /// Computes the arithmetic mean of one block.
    fn block_average(&self, bx: usize, by: usize, fw: usize, fh: usize) -> (p: Pixel)
        requires
            self.wf(),
            1 <= fw,
            1 <= fh,
            fw * fh <= 0x100000,
            bx + fw <= self.width,
            by + fh <= self.height,
        ensures
            p == self.block_mean(bx as int, by as int, fw as int, fh as int),
            in_unit(p),
    {
        let n_px = self.pixels.len();
        let mut sr: i64 = 0;
        let mut sg: i64 = 0;
        let mut sb: i64 = 0;
        let mut yy: usize = 0;
        while yy < fh
            invariant
                self.wf(),
                n_px == self.pixels@.len(),
                1 <= fw,
                1 <= fh,
                fw * fh <= 0x100000,
                bx + fw <= self.width,
                by + fh <= self.height,
                0 <= yy <= fh,
                (sr as int, sg as int, sb as int) == self.block_sum(
                    bx as int,
                    by as int,
                    fw as int,
                    yy as int,
                ),
                0 <= sr <= fw * yy * FP_ONE,
                0 <= sg <= fw * yy * FP_ONE,
                0 <= sb <= fw * yy * FP_ONE,
                fw * yy * FP_ONE <= fw * fh * FP_ONE,
            decreases fh - yy,
        {
            let y = by + yy;
            let ghost row_start = (sr as int, sg as int, sb as int);
            let mut xx: usize = 0;
            proof {
                assert(fw * yy * FP_ONE + fw * FP_ONE == fw * (yy + 1) * FP_ONE)
                    by (nonlinear_arith);
                assert(fw * (yy + 1) * FP_ONE <= fw * fh * FP_ONE) by (nonlinear_arith)
                    requires
                        yy + 1 <= fh,
                        fw >= 0,
                        FP_ONE >= 0,
                ;
            }
            while xx < fw
                invariant
                    self.wf(),
                    n_px == self.pixels@.len(),
                    1 <= fw,
                    fw * fh <= 0x100000,
                    bx + fw <= self.width,
                    by + fh <= self.height,
                    yy < fh,
                    y == by + yy,
                    0 <= xx <= fw,
                    sr == row_start.0 + self.row_sum(bx as int, y as int, xx as int).0,
                    sg == row_start.1 + self.row_sum(bx as int, y as int, xx as int).1,
                    sb == row_start.2 + self.row_sum(bx as int, y as int, xx as int).2,
                    0 <= row_start.0 <= fw * yy * FP_ONE,
                    0 <= row_start.1 <= fw * yy * FP_ONE,
                    0 <= row_start.2 <= fw * yy * FP_ONE,
                    fw * yy * FP_ONE + fw * FP_ONE <= fw * fh * FP_ONE,
                    0 <= sr <= row_start.0 + xx * FP_ONE,
                    0 <= sg <= row_start.1 + xx * FP_ONE,
                    0 <= sb <= row_start.2 + xx * FP_ONE,
                decreases fw - xx,
            {
                proof {
                    assert(y * self.width + bx + xx < self.width * self.height)
                        by (nonlinear_arith)
                        requires
                            y < self.height,
                            bx + xx < self.width,
                            self.width >= 0,
                    ;
                    self.lemma_row_sum_bounds(bx as int, y as int, xx as int);
                    assert(xx * FP_ONE + FP_ONE == (xx + 1) * FP_ONE) by (nonlinear_arith);
                    assert((xx + 1) * FP_ONE <= fw * FP_ONE) by (nonlinear_arith)
                        requires
                            xx + 1 <= fw;
                }
                let p = self.pixels[y * self.width + bx + xx];
                sr = sr + p.r;
                sg = sg + p.g;
                sb = sb + p.b;
                xx = xx + 1;
            }
            proof {
                assert(fw * yy * FP_ONE + fw * FP_ONE == fw * (yy + 1) * FP_ONE)
                    by (nonlinear_arith);
                assert(fw * (yy + 1) * FP_ONE <= fw * fh * FP_ONE) by (nonlinear_arith)
                    requires
                        yy + 1 <= fh,
                        fw >= 0,
                        FP_ONE >= 0,
                ;
                if yy + 1 < fh {
                    assert(fw * (yy + 1) * FP_ONE + fw * FP_ONE == fw * (yy + 2) * FP_ONE)
                        by (nonlinear_arith);
                    assert(fw * (yy + 2) * FP_ONE <= fw * fh * FP_ONE) by (nonlinear_arith)
                        requires
                            yy + 2 <= fh,
                            fw >= 0,
                            FP_ONE >= 0,
                    ;
                }
            }
            yy = yy + 1;
        }
        let area = fw * fh;
        proof {
            assert(area >= 1) by (nonlinear_arith)
                requires
                    fw >= 1,
                    fh >= 1,
                    area == fw * fh,
            ;
            assert(fw * fh * FP_ONE == area * FP_ONE) by (nonlinear_arith)
                requires
                    area == fw * fh,
            ;
            lemma_mean_unit(sr as int, area as int);
            lemma_mean_unit(sg as int, area as int);
            lemma_mean_unit(sb as int, area as int);
        }
        let r = div_nonneg(sr, area as i64);
        let g = div_nonneg(sg, area as i64);
        let b = div_nonneg(sb, area as i64);
        Pixel { r, g, b }
    }
}

/// One RGBA pixel composited over a black backdrop in linear space: each
/// channel is gamma-decoded, then scaled by the decoded alpha
/// (`linear = decode(channel) * decode(alpha)`).
pub open spec fn composited_spec(t: Table, r: u8, g: u8, b: u8, a: u8) -> Pixel {
    Pixel {
        r: (t.decode_spec(r) * t.decode_spec(a) / (FP_ONE as int)) as i64,
        g: (t.decode_spec(g) * t.decode_spec(a) / (FP_ONE as int)) as i64,
        b: (t.decode_spec(b) * t.decode_spec(a) / (FP_ONE as int)) as i64,
    }
}

/// Scales one decoded channel by a decoded alpha.
fn apply_alpha(v: i64, a: i64) -> (r: i64)
    requires
        0 <= v <= FP_ONE,
        0 <= a <= FP_ONE,
    ensures
        r as int == v * a / (FP_ONE as int),
        0 <= r <= FP_ONE,
{
    proof {
        assert(0 <= v * a <= FP_ONE * FP_ONE) by (nonlinear_arith)
            requires
                0 <= v <= FP_ONE,
                0 <= a <= FP_ONE,
        ;
        vstd::arithmetic::div_mod::lemma_div_is_ordered(0, v * a, FP_ONE as int);
        vstd::arithmetic::div_mod::lemma_div_is_ordered(v * a, FP_ONE * FP_ONE, FP_ONE as int);
        assert(FP_ONE * FP_ONE / (FP_ONE as int) == FP_ONE) by (nonlinear_arith);
    }
    div_nonneg(v * a, FP_ONE)
}

/// Converts a decoded RGBA byte buffer into a linear-light image,
/// compositing against a black backdrop in linear space: each channel
/// becomes `decode(channel) * decode(alpha)`.
pub fn load(rgba: &Vec<u8>, width: usize, height: usize, table: &Table) -> (r: Result<
    Image,
    RenderError,
>)
    requires
        table.wf(),
        width * height <= 0x4000_0000,
    ensures
        r is Ok <==> rgba@.len() == 4 * width * height,
        r is Err ==> r == Result::<Image, RenderError>::Err(RenderError::InvalidDimensions),
        r is Ok ==> {
            &&& r->Ok_0.wf()
            &&& r->Ok_0.width == width
            &&& r->Ok_0.height == height
            &&& forall|i: int|
                0 <= i < r->Ok_0.pixels@.len() ==> #[trigger] r->Ok_0.pixels@[i]
                    == composited_spec(
                    *table,
                    rgba@[4 * i],
                    rgba@[4 * i + 1],
                    rgba@[4 * i + 2],
                    rgba@[4 * i + 3],
                )
        },
{
    let n = width * height;
    proof {
        assert(4 * (width * height) == 4 * width * height) by (nonlinear_arith);
    }
    if rgba.len() / 4 != n || rgba.len() % 4 != 0 {
        proof {
            vstd::arithmetic::div_mod::lemma_fundamental_div_mod(rgba@.len() as int, 4);
            if rgba@.len() == 4 * n {
                vstd::arithmetic::div_mod::lemma_div_by_multiple(n as int, 4);
                vstd::arithmetic::div_mod::lemma_mod_multiples_basic(n as int, 4);
                assert(n * 4 == 4 * n) by (nonlinear_arith);
            }
        }
        return Err(RenderError::InvalidDimensions);
    }
    proof {
        vstd::arithmetic::div_mod::lemma_fundamental_div_mod(rgba@.len() as int, 4);
    }
    let mut pixels: Vec<Pixel> = Vec::new();
    let mut i: usize = 0;
    while i < n
        invariant
            table.wf(),
            rgba@.len() == 4 * n,
            n <= 0x4000_0000,
            0 <= i <= n,
            pixels@.len() == i,
            forall|k: int|
                0 <= k < i ==> #[trigger] pixels@[k] == composited_spec(
                    *table,
                    rgba@[4 * k],
                    rgba@[4 * k + 1],
                    rgba@[4 * k + 2],
                    rgba@[4 * k + 3],
                ),
            forall|k: int| 0 <= k < i ==> in_unit(#[trigger] pixels@[k]),
        decreases n - i,
    {
        let a = table.decode(rgba[4 * i + 3]);
        let r = apply_alpha(table.decode(rgba[4 * i]), a);
        let g = apply_alpha(table.decode(rgba[4 * i + 1]), a);
        let b = apply_alpha(table.decode(rgba[4 * i + 2]), a);
        pixels.push(Pixel { r, g, b });
        i = i + 1;
    }
    Ok(Image { width, height, pixels })
}

/// The mean of a sum of at most `n` displayable channels is displayable./// The mean of a sum of at most `n` displayable channels is displayable.
proof fn lemma_mean_unit(s: int, n: int)
    requires
        n >= 1,
        0 <= s <= n * FP_ONE,
    ensures
        0 <= s / n <= FP_ONE,
{
    vstd::arithmetic::div_mod::lemma_div_is_ordered(0, s, n);
    vstd::arithmetic::div_mod::lemma_div_is_ordered(s, n * FP_ONE, n);
    assert(n * FP_ONE / n == FP_ONE) by {
        vstd::arithmetic::div_mod::lemma_div_by_multiple(FP_ONE as int, n);
        assert(n * FP_ONE == FP_ONE * n) by (nonlinear_arith);
    }
}

} // verus!
