//! Glyph ink-coverage calibration.
//!
//! A calibration bitmap shows each candidate glyph rendered into a fixed-size
//! cell, laid out in a grid with a fixed number of columns and sequential
//! rows.  A glyph's coverage is the count of its ink pixels divided by the
//! cell area.  Each glyph also yields an inverted counterpart (the same shape
//! with foreground and background swapped), whose coverage is one minus the
//! original.  Glyphs are bucketed by ink count, mapped to fixed-point
//! coverage, deduplicated by coverage value and sorted ascending.

use vstd::prelude::*;
use vstd::pervasive::VecAdditionalExecFns;
use vstd::seq_lib::lemma_seq_contains_after_push;

use crate::RenderError;
use crate::pixel::{FP_ONE, div_nonneg};

verus! {

broadcast use lemma_seq_contains_after_push;

/// A candidate glyph: a character code plus the invert flag (rendered with
/// foreground and background swapped).
#[derive(Clone, Copy, Debug, PartialEq, Eq, Structural)]
pub struct Glyph {
    pub ch: u16,
    pub invert: bool,
}

/// One coverage key and the interchangeable glyphs that share it.
pub struct CoverageEntry {
    pub cov: i64,
    pub glyphs: Vec<Glyph>,
}

/// The sorted, deduplicated coverage table.
pub struct CoverageTable {
    pub entries: Vec<CoverageEntry>,
}

impl CoverageTable {
    /// Well-formedness: coverage keys strictly increasing with no duplicates,
    /// every key a displayable fraction, every entry nonempty.
    pub open spec fn wf(self) -> bool {
        &&& forall|i: int, j: int|
            0 <= i < j < self.entries@.len() ==> self.entries@[i].cov < self.entries@[j].cov
        &&& forall|i: int|
            0 <= i < self.entries@.len() ==> 0 <= #[trigger] self.entries@[i].cov <= FP_ONE
        &&& forall|i: int|
            0 <= i < self.entries@.len() ==> #[trigger] self.entries@[i].glyphs@.len() >= 1
    }

    /// The table holds glyph `g` under coverage key `cov`.
    pub open spec fn has(self, cov: int, g: Glyph) -> bool {
        exists|e: int|
            0 <= e < self.entries@.len() && #[trigger] self.entries@[e].cov == cov
                && self.entries@[e].glyphs@.contains(g)
    }
}

/// A table entry witnessing a coverage key and glyph establishes `has`.
proof fn lemma_has_witness(t: CoverageTable, e: int, cov: int, g: Glyph)
    requires
        0 <= e < t.entries@.len(),
        t.entries@[e].cov == cov,
        t.entries@[e].glyphs@.contains(g),
    ensures
        t.has(cov, g),
{
}

/// The table holds every glyph of the list under its coverage key, and its
/// inverted counterpart under the complementary key, as given by the
/// per-glyph ink counts.
pub open spec fn covers_counts(
    t: CoverageTable,
    counts: Seq<usize>,
    total: int,
    glyphs: Seq<u16>,
) -> bool {
    forall|i: int|
        0 <= i < glyphs.len() ==> #[trigger] t.has(
            cov_of(counts[i] as int, total),
            Glyph { ch: glyphs[i], invert: false },
        ) && t.has(cov_of(total - counts[i], total), Glyph { ch: glyphs[i], invert: true })
}

/// The table holds every glyph of the list under the coverage computed from
/// the calibration bitmap, and its inverted counterpart likewise.
pub open spec fn covers_bitmap(
    t: CoverageTable,
    ink: Seq<bool>,
    img_w: int,
    cols: int,
    cw: int,
    ch: int,
    glyphs: Seq<u16>,
) -> bool {
    forall|i: int|
        0 <= i < glyphs.len() ==> #[trigger] t.has(
            cov_of(glyph_ink(ink, img_w, cols, cw, ch, i), cw * ch),
            Glyph { ch: glyphs[i], invert: false },
        ) && t.has(
            cov_of(cw * ch - glyph_ink(ink, img_w, cols, cw, ch, i), cw * ch),
            Glyph { ch: glyphs[i], invert: true },
        )
}

/// Glyph `g`, filed under ink-count key `k`, is accounted for by input
/// glyph `i`: it is that glyph under its own count, or its inverted
/// counterpart under the complementary count.
pub open spec fn from_input(
    g: Glyph,
    k: int,
    counts: Seq<usize>,
    glyphs: Seq<u16>,
    total: int,
    i: int,
) -> bool {
    &&& 0 <= i < glyphs.len()
    &&& ((g == Glyph { ch: glyphs[i], invert: false } && k == counts[i]) || (g == Glyph {
        ch: glyphs[i],
        invert: true,
    } && k == total - counts[i]))
}

/// Glyph `g` under coverage key `cov` is accounted for by some input glyph
/// and its ink count.
pub open spec fn glyph_cov_ok(
    g: Glyph,
    cov: int,
    counts: Seq<usize>,
    glyphs: Seq<u16>,
    total: int,
) -> bool {
    exists|i: int|
        #![trigger glyphs[i]]
        0 <= i < glyphs.len() && ((g == Glyph { ch: glyphs[i], invert: false } && cov == cov_of(
            counts[i] as int,
            total,
        )) || (g == Glyph { ch: glyphs[i], invert: true } && cov == cov_of(
            total - counts[i],
            total,
        )))
}

/// Every glyph in the first `upto`-many processed inputs' buckets is
/// accounted for by one of those inputs.
spec fn buckets_justified(
    bks: Seq<Vec<Glyph>>,
    counts: Seq<usize>,
    glyphs: Seq<u16>,
    total: int,
    upto: int,
) -> bool {
    forall|k2: int, gi2: int|
        #![trigger bks[k2]@[gi2]]
        0 <= k2 < bks.len() && 0 <= gi2 < bks[k2]@.len() ==> exists|ii: int|
            #![trigger glyphs[ii]]
            0 <= ii < upto && from_input(bks[k2]@[gi2], k2, counts, glyphs, total, ii)
}

/// A justified bucket key yields a justified coverage key.
proof fn lemma_glyph_cov_from_input(
    g: Glyph,
    k: int,
    counts: Seq<usize>,
    glyphs: Seq<u16>,
    total: int,
    i: int,
)
    requires
        from_input(g, k, counts, glyphs, total, i),
    ensures
        glyph_cov_ok(g, cov_of(k, total), counts, glyphs, total),
{
    assert(glyphs[i] == glyphs[i]);
}

/// Every glyph of every entry comes from the calibrated glyph list, filed
/// under the coverage its ink count gives it.
pub open spec fn entries_only_counted(
    entries: Seq<CoverageEntry>,
    counts: Seq<usize>,
    total: int,
    glyphs: Seq<u16>,
) -> bool {
    forall|e: int, gi: int|
        #![trigger entries[e].glyphs@[gi]]
        0 <= e < entries.len() && 0 <= gi < entries[e].glyphs@.len() ==> glyph_cov_ok(
            entries[e].glyphs@[gi],
            entries[e].cov as int,
            counts,
            glyphs,
            total,
        )
}

/// The table holds no junk: see [`entries_only_counted`].
pub open spec fn only_counted(
    t: CoverageTable,
    counts: Seq<usize>,
    total: int,
    glyphs: Seq<u16>,
) -> bool {
    entries_only_counted(t.entries@, counts, total, glyphs)
}

/// Glyph `g` under coverage key `cov` is accounted for by some input glyph
/// and its ink coverage in the calibration bitmap.
pub open spec fn glyph_cov_bitmap_ok(
    g: Glyph,
    cov: int,
    ink: Seq<bool>,
    img_w: int,
    cols: int,
    cw: int,
    ch: int,
    glyphs: Seq<u16>,
) -> bool {
    exists|i: int|
        #![trigger glyphs[i]]
        0 <= i < glyphs.len() && ((g == Glyph { ch: glyphs[i], invert: false } && cov == cov_of(
            glyph_ink(ink, img_w, cols, cw, ch, i),
            cw * ch,
        )) || (g == Glyph { ch: glyphs[i], invert: true } && cov == cov_of(
            cw * ch - glyph_ink(ink, img_w, cols, cw, ch, i),
            cw * ch,
        )))
}

/// As [`only_counted`], stated against the calibration bitmap.
pub open spec fn only_bitmap(
    t: CoverageTable,
    ink: Seq<bool>,
    img_w: int,
    cols: int,
    cw: int,
    ch: int,
    glyphs: Seq<u16>,
) -> bool {
    forall|e: int, gi: int|
        #![trigger t.entries@[e].glyphs@[gi]]
        0 <= e < t.entries@.len() && 0 <= gi < t.entries@[e].glyphs@.len()
            ==> glyph_cov_bitmap_ok(
            t.entries@[e].glyphs@[gi],
            t.entries@[e].cov as int,
            ink,
            img_w,
            cols,
            cw,
            ch,
            glyphs,
        )
}

/// The number of glyph occurrences stored in the table: the entry
/// glyph-list lengths summed.
pub open spec fn glyph_total(entries: Seq<CoverageEntry>) -> int
    decreases entries.len(),
{
    if entries.len() == 0 {
        0
    } else {
        glyph_total(entries.drop_last()) + entries.last().glyphs@.len()
    }
}

/// The glyph occurrences stored in the first `upto` buckets.
spec fn buckets_total(bks: Seq<Vec<Glyph>>, upto: int) -> int
    decreases upto,
{
    if upto <= 0 {
        0
    } else {
        buckets_total(bks, upto - 1) + bks[upto - 1]@.len()
    }
}

/// The bucket totals depend only on the buckets below `upto`.
proof fn lemma_buckets_total_frame(bks: Seq<Vec<Glyph>>, bks2: Seq<Vec<Glyph>>, upto: int)
    requires
        forall|k: int| 0 <= k < upto ==> #[trigger] bks[k] == bks2[k],
    ensures
        buckets_total(bks, upto) == buckets_total(bks2, upto),
    decreases upto,
{
    if upto > 0 {
        lemma_buckets_total_frame(bks, bks2, upto - 1);
    }
}

/// Lengthening one bucket by one glyph raises the total by one.
proof fn lemma_buckets_total_bump(bks: Seq<Vec<Glyph>>, bks2: Seq<Vec<Glyph>>, j: int,
    upto: int)
    requires
        0 <= j < upto,
        bks2[j]@.len() == bks[j]@.len() + 1,
        forall|k: int| 0 <= k < upto && k != j ==> #[trigger] bks2[k] == bks[k],
    ensures
        buckets_total(bks2, upto) == buckets_total(bks, upto) + 1,
    decreases upto,
{
    if j == upto - 1 {
        lemma_buckets_total_frame(bks, bks2, upto - 1);
    } else {
        lemma_buckets_total_bump(bks, bks2, j, upto - 1);
    }
}

/// Appending an entry adds its glyph count to the total.
proof fn lemma_glyph_total_push(entries: Seq<CoverageEntry>, e: CoverageEntry)
    ensures
        glyph_total(entries.push(e)) == glyph_total(entries) + e.glyphs@.len(),
{
    assert(entries.push(e).drop_last() =~= entries);
}

/// Replacing the last entry shifts the total by the length difference.
proof fn lemma_glyph_total_update_last(entries: Seq<CoverageEntry>, x: CoverageEntry)
    requires
        entries.len() >= 1,
    ensures
        glyph_total(entries.update(entries.len() - 1, x)) == glyph_total(entries)
            - entries.last().glyphs@.len() + x.glyphs@.len(),
{
    assert(entries.update(entries.len() - 1, x).drop_last() =~= entries.drop_last());
}

/// Coverage facts stated over ink counts transfer to the bitmap they were
/// counted from.
proof fn lemma_covers_bitmap(
    t: CoverageTable,
    ink: Seq<bool>,
    img_w: int,
    cols: int,
    cw: int,
    ch: int,
    counts: Seq<usize>,
    glyphs: Seq<u16>,
)
    requires
        covers_counts(t, counts, cw * ch, glyphs),
        counts.len() == glyphs.len(),
        forall|i: int| 0 <= i < counts.len() ==> #[trigger] counts[i] as int == glyph_ink(
            ink, img_w, cols, cw, ch, i),
    ensures
        covers_bitmap(t, ink, img_w, cols, cw, ch, glyphs),
{
    assert forall|i: int| 0 <= i < glyphs.len() implies #[trigger] t.has(
        cov_of(glyph_ink(ink, img_w, cols, cw, ch, i), cw * ch),
        Glyph { ch: glyphs[i], invert: false },
    ) && t.has(
        cov_of(cw * ch - glyph_ink(ink, img_w, cols, cw, ch, i), cw * ch),
        Glyph { ch: glyphs[i], invert: true },
    ) by {
        assert(counts[i] as int == glyph_ink(ink, img_w, cols, cw, ch, i));
        assert(t.has(
            cov_of(counts[i] as int, cw * ch),
            Glyph { ch: glyphs[i], invert: false },
        ));
        assert(t.has(
            cov_of(cw * ch - counts[i], cw * ch),
            Glyph { ch: glyphs[i], invert: true },
        ));
    }
}

/// Junk-freedom stated over ink counts transfers to the bitmap likewise.
proof fn lemma_only_bitmap(
    t: CoverageTable,
    ink: Seq<bool>,
    img_w: int,
    cols: int,
    cw: int,
    ch: int,
    counts: Seq<usize>,
    glyphs: Seq<u16>,
)
    requires
        only_counted(t, counts, cw * ch, glyphs),
        counts.len() == glyphs.len(),
        forall|i: int| 0 <= i < counts.len() ==> #[trigger] counts[i] as int == glyph_ink(
            ink, img_w, cols, cw, ch, i),
    ensures
        only_bitmap(t, ink, img_w, cols, cw, ch, glyphs),
{
    assert forall|e: int, gi: int|
        #![trigger t.entries@[e].glyphs@[gi]]
        0 <= e < t.entries@.len() && 0 <= gi < t.entries@[e].glyphs@.len()
        implies glyph_cov_bitmap_ok(
        t.entries@[e].glyphs@[gi],
        t.entries@[e].cov as int,
        ink,
        img_w,
        cols,
        cw,
        ch,
        glyphs,
    ) by {
        let g = t.entries@[e].glyphs@[gi];
        let cov = t.entries@[e].cov as int;
        assert(t.entries@[e].glyphs@[gi] == t.entries@[e].glyphs@[gi]);
        assert(glyph_cov_ok(g, cov, counts, glyphs, cw * ch));
        let i = choose|i: int|
            #![trigger glyphs[i]]
            0 <= i < glyphs.len() && ((g == Glyph { ch: glyphs[i], invert: false } && cov
                == cov_of(counts[i] as int, cw * ch)) || (g == Glyph {
                ch: glyphs[i],
                invert: true,
            } && cov == cov_of(cw * ch - counts[i], cw * ch)));
        assert(counts[i] as int == glyph_ink(ink, img_w, cols, cw, ch, i));
    }
}

/// Ink pixels in one row segment: positions `x0 .. x0 + n` of row `y` in a
/// bitmap of width `w`.
pub open spec fn row_ink(ink: Seq<bool>, w: int, y: int, x0: int, n: int) -> int
    decreases n,
{
    if n <= 0 {
        0
    } else {
        row_ink(ink, w, y, x0, n - 1) + if ink[y * w + x0 + (n - 1)] {
            1int
        } else {
            0int
        }
    }
}

/// Ink pixels in the `cw` by `m` block whose top-left corner is `(x0, y0)`.
pub open spec fn block_ink(ink: Seq<bool>, w: int, x0: int, y0: int, cw: int, m: int) -> int
    decreases m,
{
    if m <= 0 {
        0
    } else {
        block_ink(ink, w, x0, y0, cw, m - 1) + row_ink(ink, w, y0 + (m - 1), x0, cw)
    }
}

/// Ink count of glyph cell `i` in the calibration layout.
pub open spec fn glyph_ink(
    ink: Seq<bool>,
    img_w: int,
    cols: int,
    cw: int,
    ch: int,
    i: int,
) -> int {
    block_ink(ink, img_w, (i % cols) * cw, (i / cols) * ch, cw, ch)
}

/// The calibration layout does not fit the bitmap: a zero dimension, or some
/// glyph cell reaching outside it.
pub open spec fn layout_bad(
    img_w: int,
    img_h: int,
    cols: int,
    cw: int,
    ch: int,
    n: int,
) -> bool {
    ||| cw <= 0
    ||| ch <= 0
    ||| cols <= 0
    ||| exists|i: int|
        #![trigger i % cols]
        0 <= i < n && ((i % cols) * cw + cw > img_w || (i / cols) * ch + ch > img_h)
}

/// The fixed-point coverage fraction of `s` ink pixels out of `total`.
pub open spec fn cov_of(s: int, total: int) -> int {
    s * FP_ONE / total
}

/// A row's ink count lies between 0 and its length.
proof fn lemma_row_ink_bounds(ink: Seq<bool>, w: int, y: int, x0: int, n: int)
    requires
        n >= 0,
    ensures
        0 <= row_ink(ink, w, y, x0, n) <= n,
    decreases n,
{
    if n > 0 {
        lemma_row_ink_bounds(ink, w, y, x0, n - 1);
    }
}

/// A block's ink count lies between 0 and its area.
proof fn lemma_block_ink_bounds(ink: Seq<bool>, w: int, x0: int, y0: int, cw: int, m: int)
    requires
        cw >= 0,
        m >= 0,
    ensures
        0 <= block_ink(ink, w, x0, y0, cw, m) <= cw * m,
    decreases m,
{
    if m > 0 {
        lemma_block_ink_bounds(ink, w, x0, y0, cw, m - 1);
        lemma_row_ink_bounds(ink, w, y0 + (m - 1), x0, cw);
        assert(cw * (m - 1) + cw == cw * m) by (nonlinear_arith);
    } else {
        assert(cw * m >= 0) by (nonlinear_arith)
            requires
                cw >= 0 && m >= 0;
    }
}

/// Coverage fractions are monotone in the ink count.
proof fn lemma_cov_mono(s1: int, s2: int, total: int)
    requires
        0 <= s1 <= s2,
        total > 0,
    ensures
        cov_of(s1, total) <= cov_of(s2, total),
{
    assert(s1 * FP_ONE <= s2 * FP_ONE) by (nonlinear_arith)
        requires
            0 <= s1 <= s2;
    vstd::arithmetic::div_mod::lemma_div_is_ordered(s1 * FP_ONE, s2 * FP_ONE, total);
}

/// A coverage fraction of at most `total` ink pixels is displayable.
proof fn lemma_cov_range(s: int, total: int)
    requires
        0 <= s <= total,
        total > 0,
    ensures
        0 <= cov_of(s, total) <= FP_ONE,
{
    vstd::arithmetic::div_mod::lemma_div_is_ordered(0, s * FP_ONE, total);
    lemma_cov_mono(s, total, total);
    assert(total * FP_ONE / total == FP_ONE) by {
        vstd::arithmetic::div_mod::lemma_div_by_multiple(FP_ONE as int, total);
        assert(total * FP_ONE == FP_ONE * total) by (nonlinear_arith);
    }
}

/// Counts the ink pixels of one glyph cell.
fn count_cell(ink: &Vec<bool>, img_w: usize, img_h: usize, bx: usize, by: usize,
    cell_w: usize, cell_h: usize) -> (s: usize)
    requires
        ink@.len() == img_w * img_h,
        bx + cell_w <= img_w,
        by + cell_h <= img_h,
    ensures
        s == block_ink(ink@, img_w as int, bx as int, by as int, cell_w as int, cell_h as int),
        s <= cell_w * cell_h,
{
    let n_ink = ink.len();
    let mut s: usize = 0;
    let mut yy: usize = 0;
    while yy < cell_h
        invariant
            ink@.len() == img_w * img_h,
            n_ink == ink@.len(),
            bx + cell_w <= img_w,
            by + cell_h <= img_h,
            0 <= yy <= cell_h,
            s == block_ink(ink@, img_w as int, bx as int, by as int, cell_w as int, yy as int),
            s <= cell_w * yy,
        decreases cell_h - yy,
    {
        let y = by + yy;
        let mut xx: usize = 0;
        let ghost s_row_start = s as int;
        while xx < cell_w
            invariant
                ink@.len() == img_w * img_h,
                n_ink == ink@.len(),
                bx + cell_w <= img_w,
                by + cell_h <= img_h,
                yy < cell_h,
                y == by + yy,
                0 <= xx <= cell_w,
                s == s_row_start + row_ink(ink@, img_w as int, y as int, bx as int, xx as int),
                s_row_start <= cell_w * yy,
                s_row_start >= 0,
                s <= s_row_start + xx,
            decreases cell_w - xx,
        {
            let x = bx + xx;
            proof {
                assert(y * img_w + x < img_w * img_h) by (nonlinear_arith)
                    requires
                        y < img_h,
                        x < img_w,
                        img_w >= 0;
                lemma_row_ink_bounds(ink@, img_w as int, y as int, bx as int, xx as int);
                assert(cell_w * yy + cell_w == cell_w * (yy + 1)) by (nonlinear_arith);
                assert(cell_w * (yy + 1) <= cell_w * cell_h) by (nonlinear_arith)
                    requires
                        yy + 1 <= cell_h,
                        cell_w >= 0;
                assert(cell_w * cell_h <= img_w * img_h) by (nonlinear_arith)
                    requires
                        0 <= cell_w <= img_w,
                        0 <= cell_h <= img_h;
            }
            if ink[y * img_w + x] {
                s = s + 1;
            }
            xx = xx + 1;
        }
        proof {
            assert(cell_w * yy + cell_w == cell_w * (yy + 1)) by (nonlinear_arith);
        }
        yy = yy + 1;
    }
    proof {
        lemma_block_ink_bounds(
            ink@,
            img_w as int,
            bx as int,
            by as int,
            cell_w as int,
            cell_h as int,
        );
    }
    s
}

/// Per-glyph ink counts under the calibration layout, or the layout error.
pub fn glyph_ink_counts(ink: &Vec<bool>, img_w: usize, img_h: usize, cols: usize,
    cell_w: usize, cell_h: usize, glyphs: &Vec<u16>) -> (r: Result<Vec<usize>, RenderError>)
    requires
        ink@.len() == img_w * img_h,
        glyphs@.len() <= 0x10000,
        cell_w * cell_h <= 0x100000,
    ensures
        r is Ok <==> !layout_bad(img_w as int, img_h as int, cols as int, cell_w as int,
            cell_h as int, glyphs@.len() as int),
        r is Err ==> r == Result::<Vec<usize>, RenderError>::Err(RenderError::InvalidDimensions),
        r is Ok ==> {
            &&& r->Ok_0@.len() == glyphs@.len()
            &&& forall|i: int|
                0 <= i < glyphs@.len() ==> #[trigger] r->Ok_0@[i] as int == glyph_ink(
                    ink@,
                    img_w as int,
                    cols as int,
                    cell_w as int,
                    cell_h as int,
                    i,
                ) && r->Ok_0@[i] <= cell_w * cell_h
        },
{
    if cell_w == 0 || cell_h == 0 || cols == 0 {
        return Err(RenderError::InvalidDimensions);
    }
    proof {
        assert(cell_w <= 0x100000 && cell_h <= 0x100000) by (nonlinear_arith)
            requires
                cell_w * cell_h <= 0x100000,
                cell_w >= 1,
                cell_h >= 1,
        ;
    }
    let mut counts: Vec<usize> = Vec::new();
    let mut i: usize = 0;
    while i < glyphs.len()
        invariant
            ink@.len() == img_w * img_h,
            glyphs@.len() <= 0x10000,
            cell_w * cell_h <= 0x100000,
            1 <= cell_w <= 0x100000,
            1 <= cell_h <= 0x100000,
            cols >= 1,
            0 <= i <= glyphs@.len(),
            counts@.len() == i,
            forall|k: int|
                #![trigger k % (cols as int)]
                0 <= k < i ==> !((k % (cols as int)) * cell_w + cell_w > img_w || (k / (
                cols as int)) * cell_h + cell_h > img_h),
            forall|k: int|
                0 <= k < i ==> #[trigger] counts@[k] as int == glyph_ink(ink@, img_w as int,
                    cols as int, cell_w as int, cell_h as int, k) && counts@[k] <= cell_w
                    * cell_h,
        decreases glyphs@.len() - i,
    {
        let col = i % cols;
        let row = i / cols;
        proof {
            assert(col <= i) by {
                vstd::arithmetic::div_mod::lemma_mod_decreases(i as nat, cols as nat);
            }
            assert(row <= i) by {
                vstd::arithmetic::div_mod::lemma_div_basics_5(i as int, cols as int);
            }
            assert((col as int) * (cell_w as int) <= 0x10000 * 0x100000) by (nonlinear_arith)
                requires
                    0 <= col <= 0x10000,
                    0 <= cell_w <= 0x100000,
            ;
            assert((row as int) * (cell_h as int) <= 0x10000 * 0x100000) by (nonlinear_arith)
                requires
                    0 <= row <= 0x10000,
                    0 <= cell_h <= 0x100000,
            ;
        }
        let bx64: u64 = (col as u64) * (cell_w as u64);
        let by64: u64 = (row as u64) * (cell_h as u64);
        if bx64 + (cell_w as u64) > (img_w as u64) || by64 + (cell_h as u64) > (img_h as u64) {
            return Err(RenderError::InvalidDimensions);
        }
        let bx = bx64 as usize;
        let by = by64 as usize;
        let s = count_cell(ink, img_w, img_h, bx, by, cell_w, cell_h);
        counts.push(s);
        i = i + 1;
    }
    Ok(counts)
}

/// Builds the sorted, deduplicated coverage table from per-glyph ink counts.
///
/// Each glyph contributes itself under its own coverage and an inverted
/// counterpart under one minus that coverage.  Buckets with the same
/// fixed-point coverage value merge into one entry.
#[verifier::rlimit(60)]
pub fn build_table(counts: &Vec<usize>, total: usize, glyphs: &Vec<u16>) -> (r: Result<
    CoverageTable,
    RenderError,
>)
    requires
        counts@.len() == glyphs@.len(),
        0 < total <= 0x100000,
        forall|i: int| 0 <= i < counts@.len() ==> #[trigger] counts@[i] <= total,
    ensures
        r is Ok <==> glyphs@.len() > 0,
        r is Err ==> r == Result::<CoverageTable, RenderError>::Err(
            RenderError::ConfigurationError,
        ),
        r is Ok ==> {
            &&& r->Ok_0.wf()
            &&& r->Ok_0.entries@.len() >= 1
            &&& covers_counts(r->Ok_0, counts@, total as int, glyphs@)
            &&& only_counted(r->Ok_0, counts@, total as int, glyphs@)
            &&& glyph_total(r->Ok_0.entries@) == 2 * glyphs@.len()
        },
{
    if glyphs.len() == 0 {
        return Err(RenderError::ConfigurationError);
    }
    // Bucket the glyphs by ink count.
    let mut buckets: Vec<Vec<Glyph>> = Vec::new();
    let mut s: usize = 0;
    while s < total + 1
        invariant
            total <= 0x100000,
            0 <= s <= total + 1,
            buckets@.len() == s,
            forall|k: int| 0 <= k < s ==> #[trigger] buckets@[k]@.len() == 0,
            buckets_total(buckets@, s as int) == 0,
        decreases total + 1 - s,
    {
        let ghost pre_init = buckets@;
        buckets.push(Vec::new());
        proof {
            lemma_buckets_total_frame(pre_init, buckets@, s as int);
        }
        s = s + 1;
    }
    let mut i: usize = 0;
    while i < glyphs.len()
        invariant
            counts@.len() == glyphs@.len(),
            0 < total <= 0x100000,
            forall|k: int| 0 <= k < counts@.len() ==> #[trigger] counts@[k] <= total,
            0 <= i <= glyphs@.len(),
            buckets@.len() == total + 1,
            forall|k: int|
                0 <= k < i ==> #[trigger] buckets@[counts@[k] as int]@.contains(
                    Glyph { ch: glyphs@[k], invert: false },
                ),
            forall|k: int|
                0 <= k < i ==> #[trigger] buckets@[total - counts@[k]]@.contains(
                    Glyph { ch: glyphs@[k], invert: true },
                ),
            buckets_justified(buckets@, counts@, glyphs@, total as int, i as int),
            buckets_total(buckets@, (total + 1) as int) == 2 * i,
        decreases glyphs@.len() - i,
    {
        let ghost pre = buckets@;
        let sum = counts[i];
        let gf = Glyph { ch: glyphs[i], invert: false };
        let mut tmp: Vec<Glyph> = Vec::new();
        buckets.set_and_swap(sum, &mut tmp);
        tmp.push(gf);
        buckets.set_and_swap(sum, &mut tmp);
        proof {
            assert(buckets@.len() == pre.len());
            assert(buckets@[sum as int]@ == pre[sum as int]@.push(gf));
            assert(forall|k: int| 0 <= k < pre.len() && k != sum ==> buckets@[k] == pre[k]);
        }
        let ghost mid = buckets@;
        let inv = total - sum;
        let gi = Glyph { ch: glyphs[i], invert: true };
        let mut tmp2: Vec<Glyph> = Vec::new();
        buckets.set_and_swap(inv, &mut tmp2);
        tmp2.push(gi);
        buckets.set_and_swap(inv, &mut tmp2);
        proof {
            assert(buckets@.len() == mid.len());
            assert(buckets@[inv as int]@ == mid[inv as int]@.push(gi));
            assert(forall|k: int| 0 <= k < mid.len() && k != inv ==> buckets@[k] == mid[k]);
            assert forall|k: int|
                0 <= k < i + 1 implies #[trigger] buckets@[counts@[k] as int]@.contains(
                Glyph { ch: glyphs@[k], invert: false },
            ) by {
                let gk = Glyph { ch: glyphs@[k], invert: false };
                let ck = counts@[k] as int;
                if k < i {
                    assert(pre[ck]@.contains(gk));
                } else {
                    assert(mid[ck]@.contains(gk));
                }
            }
            assert forall|k: int|
                0 <= k < i + 1 implies #[trigger] buckets@[total - counts@[k]]@.contains(
                Glyph { ch: glyphs@[k], invert: true },
            ) by {
                let gk = Glyph { ch: glyphs@[k], invert: true };
                let ck = total - counts@[k];
                if k < i {
                    assert(pre[ck]@.contains(gk));
                }
            }
            assert forall|k2: int, gi2: int|
                #![trigger buckets@[k2]@[gi2]]
                0 <= k2 < buckets@.len() && 0 <= gi2 < buckets@[k2]@.len() implies exists|
                ii: int|
                #![trigger glyphs@[ii]]
                0 <= ii < i + 1 && from_input(buckets@[k2]@[gi2], k2, counts@, glyphs@,
                    total as int, ii) by {
                if k2 == inv && gi2 == mid[inv as int]@.len() {
                    assert(buckets@[k2]@[gi2] == gi);
                    assert(from_input(gi, k2, counts@, glyphs@, total as int, i as int));
                    assert(glyphs@[i as int] == glyphs@[i as int]);
                } else {
                    assert(buckets@[k2]@[gi2] == mid[k2]@[gi2]);
                    if k2 == sum && gi2 == pre[sum as int]@.len() {
                        assert(mid[k2]@[gi2] == gf);
                        assert(from_input(gf, k2, counts@, glyphs@, total as int, i as int));
                        assert(glyphs@[i as int] == glyphs@[i as int]);
                    } else {
                        assert(mid[k2]@[gi2] == pre[k2]@[gi2]);
                        assert(pre[k2]@[gi2] == pre[k2]@[gi2]);
                        let ii = choose|ii: int|
                            #![trigger glyphs@[ii]]
                            0 <= ii < i && from_input(pre[k2]@[gi2], k2, counts@, glyphs@,
                                total as int, ii);
                        assert(glyphs@[ii] == glyphs@[ii]);
                    }
                }
            }
            assert(buckets_justified(buckets@, counts@, glyphs@, total as int, i + 1));
            lemma_buckets_total_bump(pre, mid, sum as int, (total + 1) as int);
            lemma_buckets_total_bump(mid, buckets@, inv as int, (total + 1) as int);
        }
        i = i + 1;
    }
    // Sweep the buckets in ascending ink order, merging equal coverage keys.
    let ghost buckets0 = buckets@;
    let mut entries: Vec<CoverageEntry> = Vec::new();
    let ghost mut last_s: int = 0;
    let mut s: usize = 0;
    while s < total + 1
        invariant
            0 < total <= 0x100000,
            buckets@.len() == total + 1,
            buckets0.len() == total + 1,
            0 <= s <= total + 1,
            forall|k: int| s <= k < total + 1 ==> #[trigger] buckets@[k] == buckets0[k],
            forall|a: int, b: int|
                0 <= a < b < entries@.len() ==> entries@[a].cov < entries@[b].cov,
            forall|a: int|
                0 <= a < entries@.len() ==> 0 <= #[trigger] entries@[a].cov <= FP_ONE,
            forall|a: int|
                0 <= a < entries@.len() ==> #[trigger] entries@[a].glyphs@.len() >= 1,
            entries@.len() > 0 ==> 0 <= last_s < s && entries@.last().cov == cov_of(
                last_s,
                total as int,
            ),
            forall|k: int, g: Glyph|
                0 <= k < s && #[trigger] buckets0[k]@.contains(g) ==> (CoverageTable {
                    entries: entries,
                }).has(cov_of(k, total as int), g),
            counts@.len() == glyphs@.len(),
            forall|k: int| 0 <= k < counts@.len() ==> #[trigger] counts@[k] <= total,
            buckets_justified(buckets0, counts@, glyphs@, total as int, glyphs@.len() as int),
            entries_only_counted(entries@, counts@, total as int, glyphs@),
            buckets_total(buckets0, (total + 1) as int) == 2 * glyphs@.len(),
            glyph_total(entries@) == buckets_total(buckets0, s as int),
        decreases total + 1 - s,
    {
        let mut bucket: Vec<Glyph> = Vec::new();
        buckets.set_and_swap(s, &mut bucket);
        proof {
            assert(bucket@ == buckets0[s as int]@);
            assert forall|k: int| s + 1 <= k < total + 1 implies #[trigger] buckets@[k]
                == buckets0[k] by {
                assert(buckets@[k] == buckets@.index(k));
            }
        }
        let ghost old_entries = entries@;
        if bucket.len() > 0 {
            let cov = div_nonneg((s as i64) * FP_ONE, total as i64);
            proof {
                lemma_cov_range(s as int, total as int);
                if entries@.len() > 0 {
                    lemma_cov_mono(last_s, s as int, total as int);
                }
            }
            if entries.len() > 0 && entries[entries.len() - 1].cov == cov {
                // Same coverage key: the glyphs become alternates of the
                // last entry.
                let li = entries.len() - 1;
                let mut e = CoverageEntry { cov: 0, glyphs: Vec::new() };
                entries.set_and_swap(li, &mut e);
                let mut k: usize = 0;
                while k < bucket.len()
                    invariant
                        0 <= k <= bucket@.len(),
                        e.cov == old_entries.last().cov,
                        old_entries.len() >= 1,
                        e.glyphs@ == old_entries.last().glyphs@ + bucket@.subrange(0, k as int),
                    decreases bucket@.len() - k,
                {
                    let g = bucket[k];
                    e.glyphs.push(g);
                    proof {
                        assert(bucket@.subrange(0, k as int).push(g) =~= bucket@.subrange(
                            0,
                            k + 1,
                        ));
                        assert(old_entries.last().glyphs@ + bucket@.subrange(0, k as int).push(g)
                            =~= (old_entries.last().glyphs@ + bucket@.subrange(0, k as int)).push(
                            g,
                        ));
                    }
                    k = k + 1;
                }
                entries.set_and_swap(li, &mut e);
                proof {
                    last_s = s as int;
                    assert(bucket@.subrange(0, bucket@.len() as int) =~= bucket@);
                    let new_last = entries@.last();
                    assert(new_last.glyphs@ == old_entries.last().glyphs@ + bucket@);
                    assert(new_last.glyphs@.len() >= 1);
                    assert(new_last.cov == old_entries.last().cov);
                    assert(entries@.len() == old_entries.len());
                    assert(forall|x: int|
                        0 <= x < old_entries.len() - 1 ==> entries@[x] == old_entries[x]);
                    // Old glyphs of the merged entry survive, and the new
                    // bucket's glyphs join it.
                    assert forall|g: Glyph|
                        old_entries.last().glyphs@.contains(g) implies #[trigger] new_last.glyphs@.contains(
                        g,
                    ) by {
                        let j = choose|j: int|
                            0 <= j < old_entries.last().glyphs@.len()
                                && old_entries.last().glyphs@[j] == g;
                        assert(new_last.glyphs@[j] == g);
                    }
                    assert forall|g: Glyph| bucket@.contains(g) implies #[trigger] new_last.glyphs@.contains(
                        g,
                    ) by {
                        let j = choose|j: int| 0 <= j < bucket@.len() && bucket@[j] == g;
                        assert(new_last.glyphs@[old_entries.last().glyphs@.len() + j] == g);
                    }
                    assert forall|k2: int, g: Glyph|
                        0 <= k2 < s + 1 && #[trigger] buckets0[k2]@.contains(g) implies (
                    CoverageTable { entries: entries }).has(cov_of(k2, total as int), g) by {
                        let tbl = CoverageTable { entries: entries };
                        if k2 < s {
                            let e0 = choose|e0: int|
                                0 <= e0 < old_entries.len() && #[trigger] old_entries[e0].cov
                                    == cov_of(k2, total as int) && old_entries[e0].glyphs@.contains(
                                    g,
                                );
                            if e0 < old_entries.len() - 1 {
                                lemma_has_witness(tbl, e0, cov_of(k2, total as int), g);
                            } else {
                                lemma_has_witness(
                                    tbl,
                                    entries@.len() - 1,
                                    cov_of(k2, total as int),
                                    g,
                                );
                            }
                        } else {
                            lemma_has_witness(
                                tbl,
                                entries@.len() - 1,
                                cov_of(k2, total as int),
                                g,
                            );
                        }
                    }
                    assert forall|e2: int, gi2: int|
                        #![trigger entries@[e2].glyphs@[gi2]]
                        0 <= e2 < entries@.len() && 0 <= gi2 < entries@[e2].glyphs@.len()
                        implies glyph_cov_ok(entries@[e2].glyphs@[gi2],
                        entries@[e2].cov as int, counts@, glyphs@, total as int) by {
                        if e2 < entries@.len() - 1 {
                            assert(entries@[e2] == old_entries[e2]);
                            assert(old_entries[e2].glyphs@[gi2] == entries@[e2].glyphs@[gi2]);
                        } else {
                            let ol = old_entries.last().glyphs@.len() as int;
                            if gi2 < ol {
                                assert(entries@[e2].glyphs@[gi2]
                                    == old_entries[old_entries.len() - 1].glyphs@[gi2]);
                                assert(glyph_cov_ok(
                                    old_entries[old_entries.len() - 1].glyphs@[gi2],
                                    old_entries[old_entries.len() - 1].cov as int,
                                    counts@,
                                    glyphs@,
                                    total as int,
                                ));
                            } else {
                                assert(entries@[e2].glyphs@[gi2] == buckets0[s as int]@[gi2
                                    - ol]);
                                let ii = choose|ii: int|
                                    #![trigger glyphs@[ii]]
                                    0 <= ii < glyphs@.len() && from_input(
                                        buckets0[s as int]@[gi2 - ol],
                                        s as int,
                                        counts@,
                                        glyphs@,
                                        total as int,
                                        ii,
                                    );
                                lemma_glyph_cov_from_input(
                                    buckets0[s as int]@[gi2 - ol],
                                    s as int,
                                    counts@,
                                    glyphs@,
                                    total as int,
                                    ii,
                                );
                            }
                        }
                    }
                    assert(entries@ =~= old_entries.update(
                        old_entries.len() - 1,
                        entries@.last(),
                    ));
                    lemma_glyph_total_update_last(old_entries, entries@.last());
                    assert(glyph_total(entries@) == buckets_total(buckets0, s + 1));
                }
            } else {
                proof {
                    if entries@.len() > 0 {
                        assert(entries@.last().cov < cov);
                    }
                }
                entries.push(CoverageEntry { cov, glyphs: bucket });
                proof {
                    last_s = s as int;
                    assert(entries@.last().glyphs@ == buckets0[s as int]@);
                    assert forall|k2: int, g: Glyph|
                        0 <= k2 < s + 1 && #[trigger] buckets0[k2]@.contains(g) implies (
                    CoverageTable { entries: entries }).has(cov_of(k2, total as int), g) by {
                        let tbl = CoverageTable { entries: entries };
                        if k2 < s {
                            let e0 = choose|e0: int|
                                0 <= e0 < old_entries.len() && #[trigger] old_entries[e0].cov
                                    == cov_of(k2, total as int) && old_entries[e0].glyphs@.contains(
                                    g,
                                );
                            assert(entries@[e0] == old_entries[e0]);
                            lemma_has_witness(tbl, e0, cov_of(k2, total as int), g);
                        } else {
                            assert(entries@[entries@.len() - 1].glyphs@ == buckets0[s as int]@);
                            lemma_has_witness(
                                tbl,
                                entries@.len() - 1,
                                cov_of(k2, total as int),
                                g,
                            );
                        }
                    }
                    assert forall|e2: int, gi2: int|
                        #![trigger entries@[e2].glyphs@[gi2]]
                        0 <= e2 < entries@.len() && 0 <= gi2 < entries@[e2].glyphs@.len()
                        implies glyph_cov_ok(entries@[e2].glyphs@[gi2],
                        entries@[e2].cov as int, counts@, glyphs@, total as int) by {
                        if e2 < entries@.len() - 1 {
                            assert(entries@[e2] == old_entries[e2]);
                            assert(old_entries[e2].glyphs@[gi2] == entries@[e2].glyphs@[gi2]);
                        } else {
                            assert(entries@[e2].glyphs@[gi2] == buckets0[s as int]@[gi2]);
                            let ii = choose|ii: int|
                                #![trigger glyphs@[ii]]
                                0 <= ii < glyphs@.len() && from_input(
                                    buckets0[s as int]@[gi2],
                                    s as int,
                                    counts@,
                                    glyphs@,
                                    total as int,
                                    ii,
                                );
                            lemma_glyph_cov_from_input(
                                buckets0[s as int]@[gi2],
                                s as int,
                                counts@,
                                glyphs@,
                                total as int,
                                ii,
                            );
                        }
                    }
                    assert(entries@ =~= old_entries.push(entries@.last()));
                    lemma_glyph_total_push(old_entries, entries@.last());
                    assert(glyph_total(entries@) == buckets_total(buckets0, s + 1));
                }
            }
        } else {
            proof {
                assert forall|k2: int, g: Glyph|
                    0 <= k2 < s + 1 && #[trigger] buckets0[k2]@.contains(g) implies (
                CoverageTable { entries: entries }).has(cov_of(k2, total as int), g) by {
                    assert(k2 != s);
                }
                assert(buckets0[s as int]@.len() == 0);
                assert(glyph_total(entries@) == buckets_total(buckets0, s + 1));
            }
        }
        s = s + 1;
    }
    let t = CoverageTable { entries };
    proof {
        let g0 = Glyph { ch: glyphs@[0], invert: false };
        assert(buckets0[counts@[0] as int]@.contains(g0));
        assert(t.has(cov_of(counts@[0] as int, total as int), g0));
        assert forall|i: int| 0 <= i < glyphs@.len() implies #[trigger] t.has(
            cov_of(counts@[i] as int, total as int),
            Glyph { ch: glyphs@[i], invert: false },
        ) && t.has(
            cov_of(total - counts@[i], total as int),
            Glyph { ch: glyphs@[i], invert: true },
        ) by {
            assert(buckets0[counts@[i] as int]@.contains(Glyph { ch: glyphs@[i], invert: false }));
            assert(buckets0[(total - counts@[i]) as int]@.contains(
                Glyph { ch: glyphs@[i], invert: true },
            ));
        }
        assert(covers_counts(t, counts@, total as int, glyphs@));
        assert(only_counted(t, counts@, total as int, glyphs@));
    }
    Ok(t)
}

/// Calibrates the glyph set against an ink bitmap: counts each glyph cell's
/// ink, then builds the coverage table.
#[verifier::rlimit(60)]
pub fn calibrate(ink: &Vec<bool>, img_w: usize, img_h: usize, cols: usize, cell_w: usize,
    cell_h: usize, glyphs: &Vec<u16>) -> (r: Result<CoverageTable, RenderError>)
    requires
        ink@.len() == img_w * img_h,
        glyphs@.len() <= 0x10000,
        cell_w * cell_h <= 0x100000,
    ensures
        r is Err ==> (r == Result::<CoverageTable, RenderError>::Err(
            RenderError::InvalidDimensions,
        ) <==> layout_bad(img_w as int, img_h as int, cols as int, cell_w as int, cell_h as int,
            glyphs@.len() as int,
        )),
        r is Err ==> (r == Result::<CoverageTable, RenderError>::Err(
            RenderError::ConfigurationError,
        ) <==> !layout_bad(img_w as int, img_h as int, cols as int, cell_w as int,
            cell_h as int, glyphs@.len() as int,
        ) && glyphs@.len() == 0),
        r is Ok <==> !layout_bad(img_w as int, img_h as int, cols as int, cell_w as int,
            cell_h as int, glyphs@.len() as int,
        ) && glyphs@.len() > 0,
        r is Ok ==> {
            &&& r->Ok_0.wf()
            &&& r->Ok_0.entries@.len() >= 1
            &&& covers_bitmap(r->Ok_0, ink@, img_w as int, cols as int, cell_w as int,
                cell_h as int, glyphs@)
            &&& only_bitmap(r->Ok_0, ink@, img_w as int, cols as int, cell_w as int,
                cell_h as int, glyphs@)
            &&& glyph_total(r->Ok_0.entries@) == 2 * glyphs@.len()
        },
{
    let counts = match glyph_ink_counts(ink, img_w, img_h, cols, cell_w, cell_h, glyphs) {
        Ok(c) => c,
        Err(e) => {
            return Err(e);
        },
    };
    proof {
        assert(cell_w >= 1 && cell_h >= 1);
        assert(cell_w * cell_h >= 1) by (nonlinear_arith)
            requires
                cell_w >= 1,
                cell_h >= 1,
        ;
    }
    let total = cell_w * cell_h;
    let r = build_table(&counts, total, glyphs);
    proof {
        if r is Ok {
            assert((cell_w as int) * (cell_h as int) == total as int);
            lemma_covers_bitmap(
                r->Ok_0,
                ink@,
                img_w as int,
                cols as int,
                cell_w as int,
                cell_h as int,
                counts@,
                glyphs@,
            );
            lemma_only_bitmap(
                r->Ok_0,
                ink@,
                img_w as int,
                cols as int,
                cell_w as int,
                cell_h as int,
                counts@,
                glyphs@,
            );
        }
    }
    r
}

} // verus!
