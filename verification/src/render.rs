//! The error-diffusion rendering engine.
//!
//! Pixels are visited in raster order.  Each one is matched to a cell, the
//! quantization residual (matched color minus target) is split by the
//! Floyd-Steinberg kernel — 7/16 to (x+1, y), 3/16 to (x-1, y+1), 5/16 to
//! (x, y+1), 1/16 to (x+1, y+1) — and added to those not-yet-visited
//! neighbors.  The working buffer carries one extra sentinel column and one
//! extra sentinel row: a pixel at (x, y) lives at buffer index
//! `y * (w + 1) + x`, so a write aimed past the grid's edge lands in a
//! sentinel slot and is absorbed harmlessly — it never wraps onto a
//! neighboring row's pixels.  Residuals are stored unclamped; only the value
//! read for matching is clamped to the displayable range.

use vstd::prelude::*;
use vstd::pervasive::VecAdditionalExecFns;

use crate::RenderError;
use crate::coverage::{CoverageEntry, CoverageTable, Glyph};
use crate::gamma::abs_i;
use crate::image::Image;
use crate::matcher::{
    Cell, best_cand, blend, blend_spec, cand_bg, cand_entry, cand_fg, match_cell,
};
use crate::palette::palette_wf;
use crate::pixel::{FP_ONE, Pixel, clamp_spec, div_nonneg, in_unit, lum_spec};

verus! {

/// How equally-scored glyph alternates are chosen: always the first, or one
/// drawn at random.
#[derive(Clone, Copy, Debug, PartialEq, Eq, Structural)]
pub enum TieBreak {
    Deterministic,
    Random,
}

/// The matching strategy: the full (foreground, background, glyph) search,
/// or the coverage-only monochrome search.
#[derive(Clone, Copy, Debug, PartialEq, Eq, Structural)]
pub enum MatchKind {
    Blend,
    Coverage,
}

/// The output grid of cells, row-major.
pub struct Grid {
    pub width: usize,
    pub height: usize,
    pub cells: Vec<Cell>,
}

/// Componentwise sum (on the fixed-point ranges the engine maintains, the
/// narrowing casts are exact).
pub open spec fn add_px(a: Pixel, b: Pixel) -> Pixel {
    Pixel { r: (a.r + b.r) as i64, g: (a.g + b.g) as i64, b: (a.b + b.b) as i64 }
}

/// Componentwise difference.
pub open spec fn sub_px(a: Pixel, b: Pixel) -> Pixel {
    Pixel { r: (a.r - b.r) as i64, g: (a.g - b.g) as i64, b: (a.b - b.b) as i64 }
}

/// The `k/16` share of a residual channel, rounded toward zero.
pub open spec fn share_scaled(e: int, k: int) -> int {
    if e >= 0 {
        (e * k) / 16
    } else {
        -((-e * k) / 16)
    }
}

/// The remainder share of a residual channel: what the 7, 3 and 5 sixteenths
/// leave over, so that the four shares sum exactly to the residual.
pub open spec fn share_rem(e: int) -> int {
    e - share_scaled(e, 7) - share_scaled(e, 3) - share_scaled(e, 5)
}

/// A pixel's `k/16` share, componentwise.
pub open spec fn share_px(e: Pixel, k: int) -> Pixel {
    Pixel {
        r: share_scaled(e.r as int, k) as i64,
        g: share_scaled(e.g as int, k) as i64,
        b: share_scaled(e.b as int, k) as i64,
    }
}

/// A pixel's remainder share, componentwise.
pub open spec fn share_rem_px(e: Pixel) -> Pixel {
    Pixel {
        r: share_rem(e.r as int) as i64,
        g: share_rem(e.g as int) as i64,
        b: share_rem(e.b as int) as i64,
    }
}

/// The Floyd-Steinberg kernel weights sum exactly to one (7/16 + 3/16 +
/// 5/16 + 1/16 == 16/16), and the integer shares of any residual channel sum
/// exactly to that residual: diffusion neither creates nor loses error.
pub proof fn lemma_kernel_conserves_residual(e: int)
    ensures
        7 + 3 + 5 + 1 == 16,
        share_scaled(e, 7) + share_scaled(e, 3) + share_scaled(e, 5) + share_rem(e) == e,
{
}

/// Bounds on the integer shares of a displayable-range residual channel.
pub proof fn lemma_share_bounds(e: int)
    requires
        -FP_ONE <= e <= FP_ONE,
    ensures
        -28672 <= share_scaled(e, 7) <= 28672,
        -12288 <= share_scaled(e, 3) <= 12288,
        -20480 <= share_scaled(e, 5) <= 20480,
        -4099 <= share_rem(e) <= 4099,
{
    let m = if e >= 0 {
        e
    } else {
        -e
    };
    vstd::arithmetic::div_mod::lemma_fundamental_div_mod(m * 7, 16);
    vstd::arithmetic::div_mod::lemma_mod_division_less_than_divisor(m * 7, 16);
    vstd::arithmetic::div_mod::lemma_fundamental_div_mod(m * 3, 16);
    vstd::arithmetic::div_mod::lemma_mod_division_less_than_divisor(m * 3, 16);
    vstd::arithmetic::div_mod::lemma_fundamental_div_mod(m * 5, 16);
    vstd::arithmetic::div_mod::lemma_mod_division_less_than_divisor(m * 5, 16);
    assert(m * 7 == 7 * m && m * 3 == 3 * m && m * 5 == 5 * m) by (nonlinear_arith);
}

/// Adds `d` to the buffer entry at `j`; positions outside the buffer absorb
/// the write harmlessly.
pub open spec fn bump(buf: Seq<Pixel>, j: int, d: Pixel) -> Seq<Pixel> {
    if 0 <= j < buf.len() {
        buf.update(j, add_px(buf[j], d))
    } else {
        buf
    }
}

/// The buffer index of the pixel with raster number `s` in a grid of width
/// `w`: the working buffer has stride `w + 1` (one sentinel column).
pub open spec fn pos_of(s: int, w: int) -> int {
    (s / w) * (w + 1) + s % w
}

/// The raster number of the pixel at buffer index `j`, for indices in a
/// pixel column.
pub open spec fn px_of(j: int, w: int) -> int {
    (j / (w + 1)) * w + j % (w + 1)
}

/// Buffer index `j` lies in a pixel column (not the sentinel column).
pub open spec fn is_px_slot(j: int, w: int) -> bool {
    j >= 0 && j % (w + 1) < w
}

/// Row, column and sign facts about a pixel's buffer position.
pub proof fn lemma_pos_props(s: int, w: int)
    requires
        w >= 1,
        s >= 0,
    ensures
        0 <= s % w < w,
        s / w >= 0,
        pos_of(s, w) % (w + 1) == s % w,
        pos_of(s, w) / (w + 1) == s / w,
        pos_of(s, w) >= 0,
{
    vstd::arithmetic::div_mod::lemma_mod_division_less_than_divisor(s, w);
    vstd::arithmetic::div_mod::lemma_div_pos_is_pos(s, w);
    assert(pos_of(s, w) >= 0) by (nonlinear_arith)
        requires
            s / w >= 0,
            s % w >= 0,
            w >= 1,
            pos_of(s, w) == (s / w) * (w + 1) + s % w,
    ;
    vstd::arithmetic::div_mod::lemma_fundamental_div_mod_converse(
        pos_of(s, w),
        w + 1,
        s / w,
        s % w,
    );
}

/// A pixel's buffer position lies in a pixel column and maps back to the
/// pixel.
pub proof fn lemma_pos_px_inverse(s: int, w: int)
    requires
        w >= 1,
        s >= 0,
    ensures
        is_px_slot(pos_of(s, w), w),
        px_of(pos_of(s, w), w) == s,
{
    lemma_pos_props(s, w);
    vstd::arithmetic::div_mod::lemma_fundamental_div_mod(s, w);
    assert(px_of(pos_of(s, w), w) == (s / w) * w + s % w);
    assert((s / w) * w + s % w == w * (s / w) + s % w) by (nonlinear_arith);
}

/// A buffer index in a pixel column is the position of its pixel.
pub proof fn lemma_px_pos_inverse(j: int, w: int)
    requires
        w >= 1,
        is_px_slot(j, w),
    ensures
        px_of(j, w) >= 0,
        pos_of(px_of(j, w), w) == j,
{
    let y = j / (w + 1);
    let x = j % (w + 1);
    vstd::arithmetic::div_mod::lemma_mod_division_less_than_divisor(j, w + 1);
    vstd::arithmetic::div_mod::lemma_div_pos_is_pos(j, w + 1);
    assert(px_of(j, w) >= 0) by (nonlinear_arith)
        requires
            y >= 0,
            x >= 0,
            w >= 1,
            px_of(j, w) == y * w + x,
    ;
    vstd::arithmetic::div_mod::lemma_fundamental_div_mod_converse(px_of(j, w), w, y, x);
    vstd::arithmetic::div_mod::lemma_fundamental_div_mod(j, w + 1);
    assert(y * (w + 1) + x == (w + 1) * y + x) by (nonlinear_arith);
}

/// Every diffusion write of a pixel stays inside the padded buffer.
pub proof fn lemma_pos_range(s: int, w: int, h: int)
    requires
        w >= 1,
        h >= 1,
        0 <= s < w * h,
    ensures
        0 <= pos_of(s, w),
        pos_of(s, w) + w + 2 < (h + 1) * (w + 1),
{
    lemma_pos_props(s, w);
    assert(s < h * w) by (nonlinear_arith)
        requires
            s < w * h;
    vstd::arithmetic::div_mod::lemma_multiply_divide_lt(s, w, h);
    assert(pos_of(s, w) + w + 2 < (h + 1) * (w + 1)) by (nonlinear_arith)
        requires
            pos_of(s, w) == (s / w) * (w + 1) + s % w,
            0 <= s / w <= h - 1,
            0 <= s % w <= w - 1,
            w >= 1,
            h >= 1,
    ;
}

/// The working buffer before any pixel is processed: the image with one
/// black sentinel column appended to each row, plus one black sentinel row.
pub open spec fn pad_spec(img: Seq<Pixel>, w: int, h: int) -> Seq<Pixel> {
    Seq::new(
        ((h + 1) * (w + 1)) as nat,
        |j: int|
            if j % (w + 1) < w && j / (w + 1) < h {
                img[px_of(j, w)]
            } else {
                Pixel { r: 0, g: 0, b: 0 }
            },
    )
}

/// The coverage entry whose key lies nearest to luminance `l` among the
/// first `n`, earliest on ties: the monochrome matcher's enumeration order.
pub open spec fn best_mono(entries: Seq<CoverageEntry>, l: int, n: int) -> int
    decreases n,
{
    if n <= 1 {
        0
    } else {
        let b = best_mono(entries, l, n - 1);
        if abs_i(entries[n - 1].cov - l) < abs_i(entries[b].cov - l) {
            n - 1
        } else {
            b
        }
    }
}

/// The monochrome choice is in range, minimizes the distance to the
/// luminance, and is the earliest entry attaining it.
pub proof fn lemma_best_mono_props(entries: Seq<CoverageEntry>, l: int, n: int)
    requires
        n >= 1,
    ensures
        0 <= best_mono(entries, l, n) < n,
        forall|j: int|
            0 <= j < n ==> abs_i(entries[best_mono(entries, l, n)].cov - l) <= abs_i(
                #[trigger] entries[j].cov - l,
            ),
        forall|j: int|
            0 <= j < best_mono(entries, l, n) ==> abs_i(#[trigger] entries[j].cov - l) > abs_i(
                entries[best_mono(entries, l, n)].cov - l,
            ),
    decreases n,
{
    if n > 1 {
        lemma_best_mono_props(entries, l, n - 1);
    }
}

/// The (foreground, background, entry) choice for one target pixel.  The
/// full search takes the best triple; the monochrome search fixes white on
/// black and picks the entry whose coverage lies nearest the luminance.
pub open spec fn choice_spec(
    kind: MatchKind,
    target: Pixel,
    pal: Seq<Pixel>,
    entries: Seq<CoverageEntry>,
) -> (int, int, int) {
    match kind {
        MatchKind::Blend => {
            let p = pal.len() as int;
            let t = entries.len() as int;
            let b = best_cand(target, pal, entries, p * p * t);
            (cand_fg(b, p, t), cand_bg(b, p, t), cand_entry(b, p, t))
        },
        MatchKind::Coverage => (
            0,
            2,
            best_mono(entries, lum_spec(target), entries.len() as int),
        ),
    }
}

/// The palette fits the matching strategy (the monochrome search needs its
/// fixed white and black indices).
pub open spec fn kind_fits(kind: MatchKind, pal: Seq<Pixel>) -> bool {
    kind == MatchKind::Coverage ==> pal.len() >= 3
}

/// One diffusion step: match the pixel with raster number `s`, then spread
/// the residual to the four forward neighbors in the stride-(w+1) buffer:
/// (x+1, y), (x-1, y+1), (x, y+1), (x+1, y+1).
pub open spec fn step_spec(
    buf: Seq<Pixel>,
    s: int,
    w: int,
    pal: Seq<Pixel>,
    entries: Seq<CoverageEntry>,
    kind: MatchKind,
) -> Seq<Pixel> {
    let p0 = pos_of(s, w);
    let target = clamp_spec(buf[p0]);
    let ch = choice_spec(kind, target, pal, entries);
    let combined = blend_spec(pal[ch.0], pal[ch.1], entries[ch.2].cov as int);
    let err = sub_px(target, combined);
    bump(
        bump(
            bump(bump(buf, p0 + 1, share_px(err, 7)), p0 + w, share_px(err, 3)),
            p0 + w + 1,
            share_px(err, 5),
        ),
        p0 + w + 2,
        share_rem_px(err),
    )
}

/// The working buffer after the first `i` pixels have been processed.
pub open spec fn render_steps(
    img: Seq<Pixel>,
    w: int,
    h: int,
    pal: Seq<Pixel>,
    entries: Seq<CoverageEntry>,
    kind: MatchKind,
    i: int,
) -> Seq<Pixel>
    decreases i,
{
    if i <= 0 {
        pad_spec(img, w, h)
    } else {
        step_spec(
            render_steps(img, w, h, pal, entries, kind, i - 1),
            i - 1,
            w,
            pal,
            entries,
            kind,
        )
    }
}

/// The choice made at step `s` of the raster scan.
pub open spec fn step_meta(
    img: Seq<Pixel>,
    w: int,
    h: int,
    pal: Seq<Pixel>,
    entries: Seq<CoverageEntry>,
    kind: MatchKind,
    s: int,
) -> (int, int, int) {
    choice_spec(
        kind,
        clamp_spec(render_steps(img, w, h, pal, entries, kind, s)[pos_of(s, w)]),
        pal,
        entries,
    )
}

/// Channelwise deviation bound between two pixels.
pub open spec fn dev_bounded(a: Pixel, b: Pixel, m: int) -> bool {
    &&& -m <= a.r - b.r <= m
    &&& -m <= a.g - b.g <= m
    &&& -m <= a.b - b.b <= m
}

/// The writer of buffer slot `j` at kernel offset `d` has already run: the
/// index `j - d` is a pixel position whose raster number is below `i`.
pub open spec fn slot_fired(i: int, j: int, d: int, w: int) -> bool {
    is_px_slot(j - d, w) && 0 <= px_of(j - d, w) < i
}

/// How much the first `i` steps may have shifted buffer entry `j`: the sum
/// of the worst-case shares of the (at most four) writers of `j` that have
/// already run.
pub open spec fn slot_bound(i: int, j: int, w: int) -> int {
    (if slot_fired(i, j, 1, w) {
        28672int
    } else {
        0int
    }) + (if slot_fired(i, j, w, w) {
        12288int
    } else {
        0int
    }) + (if slot_fired(i, j, w + 1, w) {
        20480int
    } else {
        0int
    }) + (if slot_fired(i, j, w + 2, w) {
        4099int
    } else {
        0int
    })
}

/// A coverage table's entry sequence is displayable and nonempty.
pub open spec fn entries_wf(entries: Seq<CoverageEntry>) -> bool {
    &&& entries.len() >= 1
    &&& forall|e: int|
        0 <= e < entries.len() ==> 0 <= #[trigger] entries[e].cov <= FP_ONE
    &&& forall|e: int| 0 <= e < entries.len() ==> #[trigger] entries[e].glyphs@.len() >= 1
}

/// The chosen triple's indices are in range for palette and table.
pub proof fn lemma_choice_in_range(
    kind: MatchKind,
    target: Pixel,
    pal: Seq<Pixel>,
    entries: Seq<CoverageEntry>,
)
    requires
        palette_wf(pal),
        entries_wf(entries),
        kind_fits(kind, pal),
    ensures
        0 <= choice_spec(kind, target, pal, entries).0 < pal.len(),
        0 <= choice_spec(kind, target, pal, entries).1 < pal.len(),
        0 <= choice_spec(kind, target, pal, entries).2 < entries.len(),
{
    let p = pal.len() as int;
    let t = entries.len() as int;
    match kind {
        MatchKind::Blend => {
            assert(p * p * t >= 1) by (nonlinear_arith)
                requires
                    p >= 1,
                    t >= 1,
            ;
            crate::matcher::lemma_best_cand_props(target, pal, entries, p * p * t);
            crate::matcher::lemma_cand_ranges(best_cand(target, pal, entries, p * p * t), p, t);
        },
        MatchKind::Coverage => {
            lemma_best_mono_props(entries, lum_spec(target), t);
        },
    }
}

/// What one absorbing write does to each buffer entry.
pub proof fn lemma_bump_props(buf: Seq<Pixel>, j0: int, d: Pixel)
    ensures
        bump(buf, j0, d).len() == buf.len(),
        forall|j: int|
            0 <= j < buf.len() && j != j0 ==> #[trigger] bump(buf, j0, d)[j] == buf[j],
        0 <= j0 < buf.len() ==> bump(buf, j0, d)[j0] == add_px(buf[j0], d),
{
}

/// One diffusion step moves each buffer entry by at most the share of its
/// newly fired writer, preserving the per-entry deviation bounds.
#[verifier::rlimit(100)]
proof fn lemma_step_dev(
    buf: Seq<Pixel>,
    base: Seq<Pixel>,
    s: int,
    w: int,
    pal: Seq<Pixel>,
    entries: Seq<CoverageEntry>,
    kind: MatchKind,
)
    requires
        1 <= w,
        0 <= s,
        pos_of(s, w) + w + 2 < buf.len(),
        buf.len() == base.len(),
        forall|j: int|
            0 <= j < buf.len() ==> dev_bounded(#[trigger] buf[j], base[j], slot_bound(s, j, w)),
        forall|j: int|
            0 <= j < base.len() ==> 0 <= #[trigger] base[j].r <= FP_ONE && 0 <= base[j].g
                <= FP_ONE && 0 <= base[j].b <= FP_ONE,
        palette_wf(pal),
        entries_wf(entries),
        kind_fits(kind, pal),
    ensures
        step_spec(buf, s, w, pal, entries, kind).len() == buf.len(),
        forall|j: int|
            0 <= j < buf.len() ==> dev_bounded(
                #[trigger] step_spec(buf, s, w, pal, entries, kind)[j],
                base[j],
                slot_bound(s + 1, j, w),
            ),
{
    let p0 = pos_of(s, w);
    lemma_pos_px_inverse(s, w);
    let target = clamp_spec(buf[p0]);
    let ch = choice_spec(kind, target, pal, entries);
    lemma_choice_in_range(kind, target, pal, entries);
    let fg = pal[ch.0];
    let bg = pal[ch.1];
    let cov = entries[ch.2].cov as int;
    let combined = blend_spec(fg, bg, cov);
    crate::matcher::lemma_blend_chan_bounds(fg.r as int, bg.r as int, cov);
    crate::matcher::lemma_blend_chan_bounds(fg.g as int, bg.g as int, cov);
    crate::matcher::lemma_blend_chan_bounds(fg.b as int, bg.b as int, cov);
    let err = sub_px(target, combined);
    lemma_share_bounds(err.r as int);
    lemma_share_bounds(err.g as int);
    lemma_share_bounds(err.b as int);
    let d7 = share_px(err, 7);
    let d3 = share_px(err, 3);
    let d5 = share_px(err, 5);
    let d1 = share_rem_px(err);
    let b1 = bump(buf, p0 + 1, d7);
    let b2 = bump(b1, p0 + w, d3);
    let b3 = bump(b2, p0 + w + 1, d5);
    let b4 = bump(b3, p0 + w + 2, d1);
    assert(step_spec(buf, s, w, pal, entries, kind) == b4);
    lemma_bump_props(buf, p0 + 1, d7);
    lemma_bump_props(b1, p0 + w, d3);
    lemma_bump_props(b2, p0 + w + 1, d5);
    lemma_bump_props(b3, p0 + w + 2, d1);
    assert forall|j: int| 0 <= j < buf.len() implies dev_bounded(
        #[trigger] step_spec(buf, s, w, pal, entries, kind)[j],
        base[j],
        slot_bound(s + 1, j, w),
    ) by {
        assert(dev_bounded(buf[j], base[j], slot_bound(s, j, w)));
        if is_px_slot(j - 1, w) {
            lemma_px_pos_inverse(j - 1, w);
        }
        if is_px_slot(j - w, w) {
            lemma_px_pos_inverse(j - w, w);
        }
        if is_px_slot(j - (w + 1), w) {
            lemma_px_pos_inverse(j - (w + 1), w);
        }
        if is_px_slot(j - (w + 2), w) {
            lemma_px_pos_inverse(j - (w + 2), w);
        }
        if j == p0 + 1 {
            assert(b1[j] == add_px(buf[j], d7));
        } else {
            assert(b1[j] == buf[j]);
        }
        if j == p0 + w {
            assert(b2[j] == add_px(b1[j], d3));
        } else {
            assert(b2[j] == b1[j]);
        }
        if j == p0 + w + 1 {
            assert(b3[j] == add_px(b2[j], d5));
        } else {
            assert(b3[j] == b2[j]);
        }
        if j == p0 + w + 2 {
            assert(b4[j] == add_px(b3[j], d1));
        } else {
            assert(b4[j] == b3[j]);
        }
    }
}

/// After any number of steps the buffer keeps its length, and every entry
/// stays within the worst-case diffusion shift of its initial value.
pub proof fn lemma_buf_bounds(
    img: Seq<Pixel>,
    w: int,
    h: int,
    pal: Seq<Pixel>,
    entries: Seq<CoverageEntry>,
    kind: MatchKind,
    i: int,
)
    requires
        1 <= w,
        1 <= h,
        img.len() == w * h,
        0 <= i <= img.len(),
        forall|k: int| 0 <= k < img.len() ==> in_unit(#[trigger] img[k]),
        palette_wf(pal),
        entries_wf(entries),
        kind_fits(kind, pal),
    ensures
        render_steps(img, w, h, pal, entries, kind, i).len() == (h + 1) * (w + 1),
        forall|j: int|
            0 <= j < (h + 1) * (w + 1) ==> dev_bounded(
                #[trigger] render_steps(img, w, h, pal, entries, kind, i)[j],
                pad_spec(img, w, h)[j],
                slot_bound(i, j, w),
            ),
    decreases i,
{
    let pad = pad_spec(img, w, h);
    assert forall|j: int| 0 <= j < pad.len() implies 0 <= #[trigger] pad[j].r <= FP_ONE && 0
        <= pad[j].g <= FP_ONE && 0 <= pad[j].b <= FP_ONE by {
        if j % (w + 1) < w && j / (w + 1) < h {
            lemma_px_pos_inverse(j, w);
            assert(px_of(j, w) < w * h) by (nonlinear_arith)
                requires
                    px_of(j, w) == (j / (w + 1)) * w + j % (w + 1),
                    0 <= j / (w + 1) <= h - 1,
                    0 <= j % (w + 1) <= w - 1,
                    w >= 1,
            ;
            assert(in_unit(img[px_of(j, w)]));
        }
    }
    if i <= 0 {
        assert forall|j: int| 0 <= j < (h + 1) * (w + 1) implies dev_bounded(
            #[trigger] render_steps(img, w, h, pal, entries, kind, i)[j],
            pad[j],
            slot_bound(i, j, w),
        ) by {
            assert(slot_bound(0, j, w) == 0);
        }
    } else {
        lemma_buf_bounds(img, w, h, pal, entries, kind, i - 1);
        let s = i - 1;
        let buf = render_steps(img, w, h, pal, entries, kind, s);
        lemma_pos_range(s, w, h);
        lemma_step_dev(buf, pad, s, w, pal, entries, kind);
        assert(render_steps(img, w, h, pal, entries, kind, i) == step_spec(
            buf,
            s,
            w,
            pal,
            entries,
            kind,
        ));
    }
}

/// Finds the coverage entry whose key lies nearest to the target's
/// luminance (earliest entry on ties): the monochrome matcher.
pub fn match_mono(target: Pixel, table: &CoverageTable) -> (e: usize)
    requires
        in_unit(target),
        table.wf(),
        table.entries@.len() >= 1,
    ensures
        e as int == best_mono(table.entries@, lum_spec(target), table.entries@.len() as int),
        e < table.entries@.len(),
{
    let ghost entries = table.entries@;
    let l = target.luminance();
    let n = table.entries.len();
    let mut best: usize = 0;
    let mut bd: i64 = abs_diff_cov(table.entries[0].cov, l);
    let mut i: usize = 1;
    while i < n
        invariant
            in_unit(target),
            table.wf(),
            entries == table.entries@,
            n == entries.len(),
            1 <= n,
            l == lum_spec(target),
            0 <= l <= FP_ONE,
            1 <= i <= n,
            0 <= best < i,
            best as int == best_mono(entries, l as int, i as int),
            bd == abs_i(entries[best as int].cov - l),
        decreases n - i,
    {
        let d = abs_diff_cov(table.entries[i].cov, l);
        if d < bd {
            best = i;
            bd = d;
        }
        i = i + 1;
    }
    best
}

/// Absolute difference of a coverage key and a luminance, both displayable.
fn abs_diff_cov(a: i64, l: i64) -> (d: i64)
    requires
        0 <= a <= FP_ONE,
        0 <= l <= FP_ONE,
    ensures
        d == abs_i(a - l),
{
    if a >= l {
        a - l
    } else {
        l - a
    }
}

/// Computes the four Floyd-Steinberg shares of one residual channel.
pub fn shares_chan(e: i64) -> (q: (i64, i64, i64, i64))
    requires
        -FP_ONE <= e <= FP_ONE,
    ensures
        q.0 == share_scaled(e as int, 7),
        q.1 == share_scaled(e as int, 3),
        q.2 == share_scaled(e as int, 5),
        q.3 == share_rem(e as int),
{
    if e >= 0 {
        let a = div_nonneg(e * 7, 16);
        let b = div_nonneg(e * 3, 16);
        let c = div_nonneg(e * 5, 16);
        proof {
            lemma_share_bounds(e as int);
        }
        (a, b, c, e - a - b - c)
    } else {
        let m = -e;
        let a = div_nonneg(m * 7, 16);
        let b = div_nonneg(m * 3, 16);
        let c = div_nonneg(m * 5, 16);
        proof {
            lemma_share_bounds(e as int);
        }
        (-a, -b, -c, e + a + b + c)
    }
}

/// Computes the four Floyd-Steinberg shares of a residual pixel.
fn shares_px(e: Pixel) -> (q: (Pixel, Pixel, Pixel, Pixel))
    requires
        crate::pixel::bounded(e, FP_ONE as int),
    ensures
        q.0 == share_px(e, 7),
        q.1 == share_px(e, 3),
        q.2 == share_px(e, 5),
        q.3 == share_rem_px(e),
{
    let (r7, r3, r5, r1) = shares_chan(e.r);
    let (g7, g3, g5, g1) = shares_chan(e.g);
    let (b7, b3, b5, b1) = shares_chan(e.b);
    (
        Pixel { r: r7, g: g7, b: b7 },
        Pixel { r: r3, g: g3, b: b3 },
        Pixel { r: r5, g: g5, b: b5 },
        Pixel { r: r1, g: g1, b: b1 },
    )
}

/// Adds `d` to the buffer entry at `j`.
fn bump_at(buf: &mut Vec<Pixel>, j: usize, d: Pixel)
    requires
        j < old(buf)@.len(),
        crate::pixel::bounded(old(buf)@[j as int], 0x100000),
        crate::pixel::bounded(d, 0x100000),
    ensures
        final(buf)@ == bump(old(buf)@, j as int, d),
{
    let cur = buf[j];
    buf.set(j, cur.add(d));
}

/// Spreads one residual to the four forward neighbors with the
/// Floyd-Steinberg shares, from the pixel at buffer position `p0`.
fn diffuse_residual(buf: &mut Vec<Pixel>, p0: usize, w: usize, err: Pixel)
    requires
        1 <= w,
        p0 + w + 2 < old(buf)@.len(),
        crate::pixel::bounded(err, FP_ONE as int),
        crate::pixel::bounded(old(buf)@[p0 + 1], 0x40000),
        crate::pixel::bounded(old(buf)@[p0 + w], 0x40000),
        crate::pixel::bounded(old(buf)@[p0 + w + 1], 0x40000),
        crate::pixel::bounded(old(buf)@[p0 + w + 2], 0x40000),
    ensures
        final(buf)@ == bump(
            bump(
                bump(bump(old(buf)@, p0 + 1, share_px(err, 7)), p0 + w, share_px(err, 3)),
                p0 + w + 1,
                share_px(err, 5),
            ),
            p0 + w + 2,
            share_rem_px(err),
        ),
{
    let n = buf.len();
    proof {
        lemma_share_bounds(err.r as int);
        lemma_share_bounds(err.g as int);
        lemma_share_bounds(err.b as int);
    }
    let (d7, d3, d5, d1) = shares_px(err);
    let ghost b0 = buf@;
    bump_at(buf, p0 + 1, d7);
    proof {
        lemma_bump_props(b0, p0 + 1 as int, d7);
    }
    let ghost b1 = buf@;
    bump_at(buf, p0 + w, d3);
    proof {
        lemma_bump_props(b1, p0 + w as int, d3);
    }
    let ghost b2 = buf@;
    bump_at(buf, p0 + w + 1, d5);
    proof {
        lemma_bump_props(b2, p0 + w + 1 as int, d5);
    }
    bump_at(buf, p0 + w + 2, d1);
}

/// A cell records the choice `st`: its palette indices are the chosen ones
/// and its glyph comes from the chosen coverage entry (the first glyph of
/// the entry under the deterministic tie-break).
pub open spec fn cell_matches(
    c: Cell,
    entries: Seq<CoverageEntry>,
    st: (int, int, int),
    det: bool,
) -> bool {
    &&& c.fg as int == st.0
    &&& c.bg as int == st.1
    &&& exists|gi: int|
        0 <= gi < entries[st.2].glyphs@.len() && #[trigger] entries[st.2].glyphs@[gi] == (Glyph {
            ch: c.ch,
            invert: c.invert,
        })
    &&& det ==> entries[st.2].glyphs@.len() >= 1 && entries[st.2].glyphs@[0] == (Glyph {
        ch: c.ch,
        invert: c.invert,
    })
}

/// The grid is the cell-by-cell record of the raster scan's choices over the
/// image.
pub open spec fn grid_matches(
    g: Grid,
    img: Seq<Pixel>,
    w: int,
    h: int,
    pal: Seq<Pixel>,
    entries: Seq<CoverageEntry>,
    kind: MatchKind,
    det: bool,
) -> bool {
    &&& g.width as int == w
    &&& g.height as int == h
    &&& g.cells@.len() == img.len()
    &&& forall|ci: int|
        0 <= ci < img.len() ==> cell_matches(
            #[trigger] g.cells@[ci],
            entries,
            step_meta(img, w, h, pal, entries, kind, ci),
            det,
        )
}

/// Runs the error-diffusion raster scan over the image and returns the grid
/// of cells.  Fails on a zero-sized image or an empty coverage table before
/// any work is done.
#[verifier::rlimit(100)]
pub fn render(img: &Image, palette: &Vec<Pixel>, table: &CoverageTable, kind: MatchKind,
    tie: TieBreak) -> (r: Result<Grid, RenderError>)
    requires
        img.wf(),
        palette_wf(palette@),
        table.wf(),
        kind_fits(kind, palette@),
        (img.width + 1) * (img.height + 1) <= usize::MAX,
    ensures
        r is Ok <==> img.width >= 1 && img.height >= 1 && table.entries@.len() >= 1,
        (r == Result::<Grid, RenderError>::Err(RenderError::InvalidDimensions) <==> img.width
            == 0 || img.height == 0),
        (r == Result::<Grid, RenderError>::Err(RenderError::ConfigurationError) <==> img.width
            >= 1 && img.height >= 1 && table.entries@.len() == 0),
        r is Ok ==> grid_matches(
            r->Ok_0,
            img.pixels@,
            img.width as int,
            img.height as int,
            palette@,
            table.entries@,
            kind,
            tie == TieBreak::Deterministic,
        ),
{
    let w = img.width();
    let h = img.height();
    if w == 0 || h == 0 {
        return Err(RenderError::InvalidDimensions);
    }
    if table.entries.len() == 0 {
        return Err(RenderError::ConfigurationError);
    }
    let ghost pix = img.pixels@;
    let ghost pal = palette@;
    let ghost entries = table.entries@;
    let ghost det = (tie == TieBreak::Deterministic);
    let n = img.pixels.len();
    // Build the working buffer: each image row followed by a black sentinel
    // slot, then a full black sentinel row.
    proof {
        assert(w + 1 <= (w + 1) * (h + 1) && h + 1 <= (w + 1) * (h + 1)) by (nonlinear_arith)
            requires
                w >= 1,
                h >= 1,
        ;
    }
    let n_total = (w + 1) * (h + 1);
    proof {
        assert((w + 1) * (h + 1) == (h + 1) * (w + 1)) by (nonlinear_arith);
    }
    let mut buf: Vec<Pixel> = Vec::new();
    let mut j: usize = 0;
    while j < n_total
        invariant
            img.wf(),
            pix == img.pixels@,
            n == pix.len(),
            1 <= w == img.width,
            1 <= h == img.height,
            n_total == (h + 1) * (w + 1),
            w + 1 <= n_total,
            0 <= j <= n_total,
            buf@.len() == j,
            forall|k: int|
                0 <= k < j ==> #[trigger] buf@[k] == pad_spec(pix, w as int, h as int)[k],
        decreases n_total - j,
    {
        let yq = j / (w + 1);
        let xr = j % (w + 1);
        if xr < w && yq < h {
            proof {
                vstd::arithmetic::div_mod::lemma_mod_division_less_than_divisor(
                    j as int,
                    w + 1 as int,
                );
                vstd::arithmetic::div_mod::lemma_div_pos_is_pos(j as int, w + 1 as int);
                assert((yq as int) * w + xr < w * h) by (nonlinear_arith)
                    requires
                        0 <= yq as int <= h - 1,
                        0 <= xr as int <= w - 1,
                        w >= 1,
                ;
                assert(px_of(j as int, w as int) == (yq as int) * w + xr);
            }
            let p = img.pixels[yq * w + xr];
            buf.push(p);
        } else {
            buf.push(Pixel { r: 0, g: 0, b: 0 });
        }
        j = j + 1;
    }
    proof {
        assert(buf@ =~= pad_spec(pix, w as int, h as int));
        assert forall|k: int| 0 <= k < pad_spec(pix, w as int, h as int).len() implies 0
            <= #[trigger] pad_spec(pix, w as int, h as int)[k].r <= FP_ONE && 0 <= pad_spec(
            pix,
            w as int,
            h as int,
        )[k].g <= FP_ONE && 0 <= pad_spec(pix, w as int, h as int)[k].b <= FP_ONE by {
            if k % (w + 1) < w && k / (w + 1) < h {
                lemma_px_pos_inverse(k, w as int);
                assert(px_of(k, w as int) < w * h) by (nonlinear_arith)
                    requires
                        px_of(k, w as int) == (k / (w + 1)) * w + k % (w + 1),
                        0 <= k / (w + 1) <= h - 1,
                        0 <= k % (w + 1) <= w - 1,
                        w >= 1,
                ;
                assert(in_unit(pix[px_of(k, w as int)]));
            }
        }
    }
    let mut cells: Vec<Cell> = Vec::new();
    let mut ci: usize = 0;
    while ci < n
        invariant
            img.wf(),
            pix == img.pixels@,
            pal == palette@,
            entries == table.entries@,
            det == (tie == TieBreak::Deterministic),
            palette_wf(pal),
            table.wf(),
            entries_wf(entries),
            kind_fits(kind, pal),
            n == pix.len(),
            1 <= w == img.width,
            1 <= h == img.height,
            n == w * h,
            (h + 1) * (w + 1) <= usize::MAX,
            w + 1 <= (h + 1) * (w + 1),
            buf@.len() == (h + 1) * (w + 1),
            buf@ == render_steps(pix, w as int, h as int, pal, entries, kind, ci as int),
            forall|k: int|
                0 <= k < pad_spec(pix, w as int, h as int).len() ==> 0 <= #[trigger] pad_spec(
                    pix,
                    w as int,
                    h as int,
                )[k].r <= FP_ONE && 0 <= pad_spec(pix, w as int, h as int)[k].g <= FP_ONE && 0
                    <= pad_spec(pix, w as int, h as int)[k].b <= FP_ONE,
            0 <= ci <= n,
            cells@.len() == ci,
            forall|c: int|
                0 <= c < ci ==> cell_matches(
                    #[trigger] cells@[c],
                    entries,
                    step_meta(pix, w as int, h as int, pal, entries, kind, c),
                    det,
                ),
        decreases n - ci,
    {
        let ghost buf0 = buf@;
        proof {
            lemma_buf_bounds(pix, w as int, h as int, pal, entries, kind, ci as int);
            lemma_pos_range(ci as int, w as int, h as int);
            lemma_pos_props(ci as int, w as int);
        }
        let p0 = (ci / w) * (w + 1) + ci % w;
        proof {
            assert(p0 as int == pos_of(ci as int, w as int));
        }
        let target = buf[p0].clamp();
        let ghost st = choice_spec(kind, target, pal, entries);
        proof {
            lemma_choice_in_range(kind, target, pal, entries);
        }
        let (fgi, bgi, ei): (usize, usize, usize) = match kind {
            MatchKind::Blend => {
                let m = match_cell(target, palette, table);
                proof {
                    assert(m.fg as int == st.0 && m.bg as int == st.1 && m.entry as int == st.2);
                }
                (m.fg, m.bg, m.entry)
            },
            MatchKind::Coverage => {
                let e = match_mono(target, table);
                (0, 2, e)
            },
        };
        let cov = table.entries[ei].cov;
        let combined = blend(palette[fgi], palette[bgi], cov);
        let glyphs_len = table.entries[ei].glyphs.len();
        let gidx: usize = match tie {
            TieBreak::Deterministic => 0,
            TieBreak::Random => crate::rng::random_below(glyphs_len),
        };
        let g = table.entries[ei].glyphs[gidx];
        let cell = Cell { fg: fgi as u8, bg: bgi as u8, ch: g.ch, invert: g.invert };
        cells.push(cell);
        proof {
            assert(cell_matches(
                cell,
                entries,
                step_meta(pix, w as int, h as int, pal, entries, kind, ci as int),
                det,
            )) by {
                assert(entries[st.2].glyphs@[gidx as int] == (Glyph {
                    ch: cell.ch,
                    invert: cell.invert,
                }));
            }
        }
        let err = target.sub(combined);
        proof {
            assert(dev_bounded(
                buf@[p0 + 1],
                pad_spec(pix, w as int, h as int)[p0 + 1],
                slot_bound(ci as int, p0 + 1, w as int),
            ));
            assert(dev_bounded(
                buf@[p0 + w],
                pad_spec(pix, w as int, h as int)[p0 + w],
                slot_bound(ci as int, p0 + w, w as int),
            ));
            assert(dev_bounded(
                buf@[p0 + w + 1],
                pad_spec(pix, w as int, h as int)[p0 + w + 1],
                slot_bound(ci as int, p0 + w + 1, w as int),
            ));
            assert(dev_bounded(
                buf@[p0 + w + 2],
                pad_spec(pix, w as int, h as int)[p0 + w + 2],
                slot_bound(ci as int, p0 + w + 2, w as int),
            ));
        }
        diffuse_residual(&mut buf, p0, w, err);
        proof {
            assert(buf@ == step_spec(buf0, ci as int, w as int, pal, entries, kind));
            assert(buf@ == render_steps(pix, w as int, h as int, pal, entries, kind, ci + 1));
        }
        ci = ci + 1;
    }
    Ok(Grid { width: w, height: h, cells })
}

/// Clamping is the identity on displayable pixels.
pub proof fn lemma_clamp_identity(p: Pixel)
    requires
        in_unit(p),
    ensures
        clamp_spec(p) == p,
{
}

/// Blending a color with itself gives that color back, whatever the
/// coverage.
pub proof fn lemma_blend_same(a: Pixel, cov: int)
    requires
        in_unit(a),
        0 <= cov <= FP_ONE,
    ensures
        blend_spec(a, a, cov) == a,
{
    assert(a.r * cov + a.r * (FP_ONE - cov) == a.r * FP_ONE) by (nonlinear_arith);
    assert(a.g * cov + a.g * (FP_ONE - cov) == a.g * FP_ONE) by (nonlinear_arith);
    assert(a.b * cov + a.b * (FP_ONE - cov) == a.b * FP_ONE) by (nonlinear_arith);
    vstd::arithmetic::div_mod::lemma_div_by_multiple(a.r as int, FP_ONE as int);
    vstd::arithmetic::div_mod::lemma_div_by_multiple(a.g as int, FP_ONE as int);
    vstd::arithmetic::div_mod::lemma_div_by_multiple(a.b as int, FP_ONE as int);
    assert(a.r * FP_ONE == FP_ONE * a.r && a.g * FP_ONE == FP_ONE * a.g && a.b * FP_ONE
        == FP_ONE * a.b) by (nonlinear_arith);
}

/// On a uniform image whose color is exactly the palette entry `k` (and no
/// earlier entry equals it), the full search picks foreground `k`,
/// background `k` and the first coverage entry at every pixel, and the
/// residual buffer never deviates from the initial image: zero residual is
/// propagated.
#[verifier::rlimit(100)]
pub proof fn lemma_uniform_steps(
    img: Seq<Pixel>,
    w: int,
    h: int,
    pal: Seq<Pixel>,
    entries: Seq<CoverageEntry>,
    k: int,
    i: int,
)
    requires
        1 <= w,
        img.len() == w * h,
        0 <= i <= img.len(),
        palette_wf(pal),
        entries_wf(entries),
        0 <= k < pal.len(),
        forall|ci: int| 0 <= ci < img.len() ==> #[trigger] img[ci] == pal[k],
        forall|idx: int| 0 <= idx < k ==> #[trigger] pal[idx] != pal[k],
    ensures
        render_steps(img, w, h, pal, entries, MatchKind::Blend, i) == pad_spec(img, w, h),
        forall|s: int|
            0 <= s < i ==> #[trigger] step_meta(img, w, h, pal, entries, MatchKind::Blend, s)
                == (k, k, 0int),
    decreases i,
{
    if i > 0 {
        lemma_uniform_steps(img, w, h, pal, entries, k, i - 1);
        let s = i - 1;
        let pad = pad_spec(img, w, h);
        let buf = render_steps(img, w, h, pal, entries, MatchKind::Blend, s);
        let p0 = pos_of(s, w);
        assert(h >= 1) by (nonlinear_arith)
            requires
                img.len() == w * h,
                img.len() >= 1,
                w >= 1,
        ;
        lemma_pos_range(s, w, h);
        lemma_pos_props(s, w);
        lemma_pos_px_inverse(s, w);
        assert(s < h * w) by (nonlinear_arith)
            requires
                s < w * h;
        vstd::arithmetic::div_mod::lemma_multiply_divide_lt(s, w, h);
        assert(buf[p0] == pad[p0]);
        assert(pad[p0] == img[s]);
        assert(in_unit(pal[k]));
        let target = clamp_spec(buf[p0]);
        lemma_clamp_identity(pal[k]);
        assert(target == pal[k]);
        let p = pal.len() as int;
        let t = entries.len() as int;
        let nn = p * p * t;
        let j0 = k * (p * t) + k * t;
        assert(j0 + t <= nn && t >= 1 && j0 >= 0) by (nonlinear_arith)
            requires
                0 <= k < p,
                t >= 1,
                j0 == k * (p * t) + k * t,
                nn == p * p * t,
        ;
        crate::matcher::lemma_cand_decompose(k, k, 0, p, t);
        let cov0 = entries[cand_entry(j0, p, t)].cov as int;
        lemma_blend_same(pal[k], cov0);
        crate::pixel::lemma_dist_zero_iff_eq(target, pal[k]);
        assert(crate::matcher::cand_score(target, pal, entries, j0) == 0);
        crate::matcher::lemma_best_cand_props(target, pal, entries, nn);
        let b = best_cand(target, pal, entries, nn);
        let fgb = cand_fg(b, p, t);
        let bgb = cand_bg(b, p, t);
        let eb = cand_entry(b, p, t);
        lemma_choice_in_range(MatchKind::Blend, target, pal, entries);
        assert(fgb == choice_spec(MatchKind::Blend, target, pal, entries).0);
        crate::pixel::lemma_dist_zero_iff_eq(target, pal[fgb]);
        crate::pixel::lemma_dist_zero_iff_eq(target, pal[bgb]);
        crate::pixel::lemma_dist_zero_iff_eq(
            target,
            blend_spec(pal[fgb], pal[bgb], entries[eb].cov as int),
        );
        assert(crate::matcher::cand_score(target, pal, entries, b) <= 0);
        assert(pal[fgb] == pal[k] && pal[bgb] == pal[k]);
        assert(fgb >= k);
        assert(bgb >= k);
        crate::matcher::lemma_cand_ranges(b, p, t);
        assert(b >= j0) by (nonlinear_arith)
            requires
                b == fgb * (p * t) + bgb * t + eb,
                fgb >= k,
                bgb >= k,
                eb >= 0,
                p >= 1,
                t >= 1,
                j0 == k * (p * t) + k * t,
        ;
        if b > j0 {
            assert(crate::matcher::cand_score(target, pal, entries, j0) > 0);
        }
        assert(b == j0);
        assert(step_meta(img, w, h, pal, entries, MatchKind::Blend, s) == (k, k, 0int));
        // Zero residual: the step leaves the buffer untouched.
        let ch = choice_spec(MatchKind::Blend, target, pal, entries);
        let combined = blend_spec(pal[ch.0], pal[ch.1], entries[ch.2].cov as int);
        assert(combined == target);
        let err = sub_px(target, combined);
        assert(err == (Pixel { r: 0, g: 0, b: 0 }));
        assert(share_scaled(0, 7) == 0 && share_scaled(0, 3) == 0 && share_scaled(0, 5) == 0)
            by {
            vstd::arithmetic::div_mod::lemma_div_basics_1(16);
        }
        assert(share_px(err, 7) == (Pixel { r: 0, g: 0, b: 0 }));
        assert(share_px(err, 3) == (Pixel { r: 0, g: 0, b: 0 }));
        assert(share_px(err, 5) == (Pixel { r: 0, g: 0, b: 0 }));
        assert(share_rem_px(err) == (Pixel { r: 0, g: 0, b: 0 }));
        let zero = Pixel { r: 0, g: 0, b: 0 };
        assert forall|bb: Seq<Pixel>, jj: int| bump(bb, jj, zero) == bb by {
            if 0 <= jj < bb.len() {
                assert(add_px(bb[jj], zero) == bb[jj]);
                assert(bump(bb, jj, zero) =~= bb);
            }
        }
        assert(render_steps(img, w, h, pal, entries, MatchKind::Blend, i) == buf);
    }
}

/// For a uniform image whose color equals palette entry `k` exactly (no
/// earlier entry equal), every output cell is foreground `k` on background
/// `k` with a glyph of the first (minimum-coverage) entry, and zero
/// residual is diffused.
pub proof fn lemma_uniform_image_cells(
    g: Grid,
    img: Seq<Pixel>,
    w: int,
    h: int,
    pal: Seq<Pixel>,
    entries: Seq<CoverageEntry>,
    k: int,
    det: bool,
)
    requires
        grid_matches(g, img, w, h, pal, entries, MatchKind::Blend, det),
        1 <= w,
        img.len() == w * h,
        palette_wf(pal),
        entries_wf(entries),
        0 <= k < pal.len(),
        forall|ci: int| 0 <= ci < img.len() ==> #[trigger] img[ci] == pal[k],
        forall|idx: int| 0 <= idx < k ==> #[trigger] pal[idx] != pal[k],
    ensures
        forall|ci: int|
            0 <= ci < img.len() ==> (#[trigger] g.cells@[ci]).fg as int == k
                && g.cells@[ci].bg as int == k,
        det ==> forall|ci: int|
            0 <= ci < img.len() ==> (#[trigger] g.cells@[ci]).ch == entries[0].glyphs@[0].ch
                && g.cells@[ci].invert == entries[0].glyphs@[0].invert,
        render_steps(img, w, h, pal, entries, MatchKind::Blend, img.len() as int) == pad_spec(
            img,
            w,
            h,
        ),
{
    lemma_uniform_steps(img, w, h, pal, entries, k, img.len() as int);
    assert forall|ci: int| 0 <= ci < img.len() implies (#[trigger] g.cells@[ci]).fg as int == k
        && g.cells@[ci].bg as int == k by {
        assert(cell_matches(
            g.cells@[ci],
            entries,
            step_meta(img, w, h, pal, entries, MatchKind::Blend, ci),
            det,
        ));
    }
    if det {
        assert forall|ci: int| 0 <= ci < img.len() implies (#[trigger] g.cells@[ci]).ch
            == entries[0].glyphs@[0].ch && g.cells@[ci].invert == entries[0].glyphs@[0].invert
            by {
            assert(cell_matches(
                g.cells@[ci],
                entries,
                step_meta(img, w, h, pal, entries, MatchKind::Blend, ci),
                det,
            ));
        }
    }
}

/// Deterministic tie-break makes the pipeline a function of its inputs: two
/// grids rendered from the same image, palette, coverage table and matching
/// strategy are identical.
pub proof fn lemma_render_deterministic(
    g1: Grid,
    g2: Grid,
    img: Seq<Pixel>,
    w: int,
    h: int,
    pal: Seq<Pixel>,
    entries: Seq<CoverageEntry>,
    kind: MatchKind,
)
    requires
        grid_matches(g1, img, w, h, pal, entries, kind, true),
        grid_matches(g2, img, w, h, pal, entries, kind, true),
    ensures
        g1.width == g2.width,
        g1.height == g2.height,
        g1.cells@ == g2.cells@,
{
    assert forall|ci: int| 0 <= ci < img.len() implies g1.cells@[ci] == g2.cells@[ci] by {
        let st = step_meta(img, w, h, pal, entries, kind, ci);
        assert(cell_matches(g1.cells@[ci], entries, st, true));
        assert(cell_matches(g2.cells@[ci], entries, st, true));
        assert(g1.cells@[ci].fg == g2.cells@[ci].fg);
        assert(g1.cells@[ci].bg == g2.cells@[ci].bg);
        assert(g1.cells@[ci].ch == g2.cells@[ci].ch);
        assert(g1.cells@[ci].invert == g2.cells@[ci].invert);
    }
    assert(g1.cells@ =~= g2.cells@);
}

/// A pixel collapsed to its luminance, replicated over the three channels.
pub open spec fn gray_of(p: Pixel) -> Pixel {
    Pixel { r: lum_spec(p) as i64, g: lum_spec(p) as i64, b: lum_spec(p) as i64 }
}

/// The image the engine actually matches for a mode: unchanged for the
/// color mode, collapsed to luminance for grayscale and monochrome.
pub open spec fn mode_pixels(s: Seq<Pixel>, m: crate::palette::Mode) -> Seq<Pixel> {
    match m {
        crate::palette::Mode::Color => s,
        _ => s.map_values(|p: Pixel| gray_of(p)),
    }
}

/// The matching strategy of each mode.
pub open spec fn mode_match_kind(m: crate::palette::Mode) -> MatchKind {
    match m {
        crate::palette::Mode::Monochrome => MatchKind::Coverage,
        _ => MatchKind::Blend,
    }
}

/// The decoded fixed palette of a mode.
pub open spec fn mode_palette_spec(m: crate::palette::Mode, t: crate::gamma::Table) -> Seq<
    Pixel,
> {
    Seq::new(16, |i: int| crate::palette::decoded_triple(t, crate::palette::mode_bytes_spec(m)[i]))
}

/// Collapses an image to luminance.
fn to_grayscale(img: &Image) -> (r: Image)
    requires
        img.wf(),
    ensures
        r.wf(),
        r.width == img.width,
        r.height == img.height,
        r.pixels@ == img.pixels@.map_values(|p: Pixel| gray_of(p)),
{
    let mut pixels: Vec<Pixel> = Vec::new();
    let mut i: usize = 0;
    let n = img.pixels.len();
    while i < n
        invariant
            img.wf(),
            n == img.pixels@.len(),
            0 <= i <= n,
            pixels@.len() == i,
            forall|k: int| 0 <= k < i ==> #[trigger] pixels@[k] == gray_of(img.pixels@[k]),
            forall|k: int| 0 <= k < i ==> in_unit(#[trigger] pixels@[k]),
        decreases n - i,
    {
        let p = img.pixels[i];
        let l = p.luminance();
        pixels.push(Pixel { r: l, g: l, b: l });
        i = i + 1;
    }
    proof {
        assert(pixels@ =~= img.pixels@.map_values(|p: Pixel| gray_of(p)));
    }
    Image { width: img.width, height: img.height, pixels }
}

/// Copies an image.
fn copy_image(img: &Image) -> (r: Image)
    requires
        img.wf(),
    ensures
        r.wf(),
        r.width == img.width,
        r.height == img.height,
        r.pixels@ == img.pixels@,
{
    let mut pixels: Vec<Pixel> = Vec::new();
    let mut i: usize = 0;
    let n = img.pixels.len();
    while i < n
        invariant
            img.wf(),
            n == img.pixels@.len(),
            0 <= i <= n,
            pixels@ == img.pixels@.subrange(0, i as int),
        decreases n - i,
    {
        let p = img.pixels[i];
        pixels.push(p);
        proof {
            assert(img.pixels@.subrange(0, i + 1) =~= img.pixels@.subrange(0, i as int).push(
                img.pixels@[i as int],
            ));
        }
        i = i + 1;
    }
    proof {
        assert(img.pixels@.subrange(0, n as int) =~= img.pixels@);
    }
    Image { width: img.width, height: img.height, pixels }
}

/// The one parametrized pipeline: the render mode selects the fixed
/// palette, the image transform (color, or collapsed to luminance) and the
/// matching strategy, and the error-diffusion engine does the rest.  One
/// distance metric and one score formula apply uniformly in every mode;
/// grayscale differs from color only in its palette and its
/// luminance-collapsed input.
pub fn convert(img: &Image, mode: crate::palette::Mode, table: &CoverageTable,
    gamma: &crate::gamma::Table, tie: TieBreak) -> (r: Result<Grid, RenderError>)
    requires
        img.wf(),
        table.wf(),
        gamma.wf(),
        (img.width + 1) * (img.height + 1) <= usize::MAX,
    ensures
        r is Ok <==> img.width >= 1 && img.height >= 1 && table.entries@.len() >= 1,
        (r == Result::<Grid, RenderError>::Err(RenderError::InvalidDimensions) <==> img.width
            == 0 || img.height == 0),
        (r == Result::<Grid, RenderError>::Err(RenderError::ConfigurationError) <==> img.width
            >= 1 && img.height >= 1 && table.entries@.len() == 0),
        r is Ok ==> grid_matches(
            r->Ok_0,
            mode_pixels(img.pixels@, mode),
            img.width as int,
            img.height as int,
            mode_palette_spec(mode, *gamma),
            table.entries@,
            mode_match_kind(mode),
            tie == TieBreak::Deterministic,
        ),
{
    let palette = mode.palette(gamma);
    proof {
        assert(palette@ =~= mode_palette_spec(mode, *gamma));
    }
    let cimg = match mode {
        crate::palette::Mode::Color => copy_image(img),
        _ => to_grayscale(img),
    };
    let kind = match mode {
        crate::palette::Mode::Monochrome => MatchKind::Coverage,
        _ => MatchKind::Blend,
    };
    proof {
        assert(cimg.pixels@ == mode_pixels(img.pixels@, mode));
        assert(kind == mode_match_kind(mode));
        assert(kind_fits(kind, palette@));
    }
    render(&cimg, &palette, table, kind, tie)
}

} // verus!
