//! Per-cell matching: the search over (foreground, background, glyph) triples.
//!
//! For a target pixel the matcher scores every triple by blending foreground
//! over background at the glyph's coverage fraction and measuring the
//! distance of the blend to the target, plus a secondary term that penalizes
//! foreground/background pairs individually far from the target.  Triples are
//! enumerated foreground-major, then background, then ascending coverage; the
//! first minimal score wins, which makes the tie-break the lowest
//! (foreground, background, coverage) triple in that order.

use vstd::prelude::*;

use crate::coverage::{CoverageEntry, CoverageTable};
use crate::palette::palette_wf;
use crate::pixel::{FP_ONE, Pixel, dist_spec, div_nonneg, in_unit, lemma_square_bound};

verus! {

/// A rendering decision: palette indices, glyph codepoint and invert flag.
#[derive(Clone, Copy, Debug, PartialEq, Eq, Structural)]
pub struct Cell {
    pub fg: u8,
    pub bg: u8,
    pub ch: u16,
    pub invert: bool,
}

/// The device attribute word of a cell: foreground in the low nibble and
/// background in the high nibble, the two swapped for an inverted glyph.
pub open spec fn attr_spec(fg: u8, bg: u8, invert: bool) -> u16 {
    if invert {
        (((fg as u16) & 0xf) << 4) | ((bg as u16) & 0xf)
    } else {
        (((bg as u16) & 0xf) << 4) | ((fg as u16) & 0xf)
    }
}

/// Packs a cell's colors into the device attribute word.
pub fn attr_of(fg: u8, bg: u8, invert: bool) -> (a: u16)
    ensures
        a == attr_spec(fg, bg, invert),
{
    if invert {
        (((fg as u16) & 0xf) << 4) | ((bg as u16) & 0xf)
    } else {
        (((bg as u16) & 0xf) << 4) | ((fg as u16) & 0xf)
    }
}

/// The color of a glyph cell: foreground blended over background by the
/// coverage fraction, componentwise `(fg * cov + bg * (1 - cov))`.
pub open spec fn blend_spec(fg: Pixel, bg: Pixel, cov: int) -> Pixel {
    Pixel {
        r: ((fg.r * cov + bg.r * (FP_ONE - cov)) / (FP_ONE as int)) as i64,
        g: ((fg.g * cov + bg.g * (FP_ONE - cov)) / (FP_ONE as int)) as i64,
        b: ((fg.b * cov + bg.b * (FP_ONE - cov)) / (FP_ONE as int)) as i64,
    }
}

/// A blend of displayable channels at a displayable coverage stays
/// displayable.
pub proof fn lemma_blend_chan_bounds(a: int, b: int, cov: int)
    requires
        0 <= a <= FP_ONE,
        0 <= b <= FP_ONE,
        0 <= cov <= FP_ONE,
    ensures
        0 <= a * cov + b * (FP_ONE - cov) <= FP_ONE * FP_ONE,
        0 <= (a * cov + b * (FP_ONE - cov)) / (FP_ONE as int) <= FP_ONE,
{
    assert(0 <= a * cov + b * (FP_ONE - cov) <= FP_ONE * FP_ONE) by (nonlinear_arith)
        requires
            0 <= a <= FP_ONE,
            0 <= b <= FP_ONE,
            0 <= cov <= FP_ONE,
    ;
    vstd::arithmetic::div_mod::lemma_div_is_ordered(
        0,
        a * cov + b * (FP_ONE - cov),
        FP_ONE as int,
    );
    vstd::arithmetic::div_mod::lemma_div_is_ordered(
        a * cov + b * (FP_ONE - cov),
        FP_ONE * FP_ONE,
        FP_ONE as int,
    );
    assert(FP_ONE * FP_ONE / (FP_ONE as int) == FP_ONE) by (nonlinear_arith);
}

/// Computes the blended cell color.
pub fn blend(fg: Pixel, bg: Pixel, cov: i64) -> (p: Pixel)
    requires
        in_unit(fg),
        in_unit(bg),
        0 <= cov <= FP_ONE,
    ensures
        p == blend_spec(fg, bg, cov as int),
        in_unit(p),
{
    proof {
        lemma_blend_chan_bounds(fg.r as int, bg.r as int, cov as int);
        lemma_blend_chan_bounds(fg.g as int, bg.g as int, cov as int);
        lemma_blend_chan_bounds(fg.b as int, bg.b as int, cov as int);
    }
    let r = div_nonneg(fg.r * cov + bg.r * (FP_ONE - cov), FP_ONE);
    let g = div_nonneg(fg.g * cov + bg.g * (FP_ONE - cov), FP_ONE);
    let b = div_nonneg(fg.b * cov + bg.b * (FP_ONE - cov), FP_ONE);
    Pixel { r, g, b }
}

/// The matching score of one triple: ten times the distance of the blend to
/// the target, plus the distances of foreground and background to the target
/// (the secondary term weighs one tenth of the primary).
pub open spec fn score_spec(target: Pixel, fg: Pixel, bg: Pixel, cov: int) -> int {
    10 * dist_spec(target, blend_spec(fg, bg, cov)) + dist_spec(target, fg) + dist_spec(
        target,
        bg,
    )
}

/// The distance of two displayable pixels is at most `3 * FP_ONE^2`.
pub proof fn lemma_dist_unit_bound(a: Pixel, b: Pixel)
    requires
        in_unit(a),
        in_unit(b),
    ensures
        0 <= dist_spec(a, b) <= 3 * FP_ONE * FP_ONE,
{
    lemma_square_bound(a.r - b.r, FP_ONE as int);
    lemma_square_bound(a.g - b.g, FP_ONE as int);
    lemma_square_bound(a.b - b.b, FP_ONE as int);
    assert(3 * (FP_ONE * FP_ONE) == 3 * FP_ONE * FP_ONE) by (nonlinear_arith);
}

/// Computes the matching score of one triple.
pub fn score(target: Pixel, fg: Pixel, bg: Pixel, cov: i64) -> (s: i64)
    requires
        in_unit(target),
        in_unit(fg),
        in_unit(bg),
        0 <= cov <= FP_ONE,
    ensures
        s == score_spec(target, fg, bg, cov as int),
        0 <= s <= 36 * FP_ONE * FP_ONE,
{
    let combined = blend(fg, bg, cov);
    let dd = target.dist(combined);
    let d1 = target.dist(fg);
    let d2 = target.dist(bg);
    proof {
        lemma_dist_unit_bound(target, combined);
        lemma_dist_unit_bound(target, fg);
        lemma_dist_unit_bound(target, bg);
    }
    10 * dd + d1 + d2
}

/// Foreground index of the linear candidate `j` (candidates are enumerated
/// foreground-major, then background, then coverage entry).
pub open spec fn cand_fg(j: int, p: int, t: int) -> int {
    j / (p * t)
}

/// Background index of the linear candidate `j`.
pub open spec fn cand_bg(j: int, p: int, t: int) -> int {
    (j / t) % p
}

/// Coverage-entry index of the linear candidate `j`.
pub open spec fn cand_entry(j: int, p: int, t: int) -> int {
    j % t
}

/// The score of the linear candidate `j`.
pub open spec fn cand_score(
    target: Pixel,
    pal: Seq<Pixel>,
    entries: Seq<CoverageEntry>,
    j: int,
) -> int {
    let p = pal.len() as int;
    let t = entries.len() as int;
    score_spec(
        target,
        pal[cand_fg(j, p, t)],
        pal[cand_bg(j, p, t)],
        entries[cand_entry(j, p, t)].cov as int,
    )
}

/// The linear candidate with the least score among the first `n`, earliest
/// on ties: the enumeration order of the matcher.
pub open spec fn best_cand(
    target: Pixel,
    pal: Seq<Pixel>,
    entries: Seq<CoverageEntry>,
    n: int,
) -> int
    decreases n,
{
    if n <= 1 {
        0
    } else {
        let b = best_cand(target, pal, entries, n - 1);
        if cand_score(target, pal, entries, n - 1) < cand_score(target, pal, entries, b) {
            n - 1
        } else {
            b
        }
    }
}

/// The chosen candidate is in range, minimizes the score, and is the
/// earliest candidate attaining that score.
pub proof fn lemma_best_cand_props(
    target: Pixel,
    pal: Seq<Pixel>,
    entries: Seq<CoverageEntry>,
    n: int,
)
    requires
        n >= 1,
    ensures
        0 <= best_cand(target, pal, entries, n) < n,
        forall|j: int|
            0 <= j < n ==> cand_score(target, pal, entries, best_cand(target, pal, entries, n))
                <= #[trigger] cand_score(target, pal, entries, j),
        forall|j: int|
            0 <= j < best_cand(target, pal, entries, n) ==> #[trigger] cand_score(
                target,
                pal,
                entries,
                j,
            ) > cand_score(target, pal, entries, best_cand(target, pal, entries, n)),
    decreases n,
{
    if n > 1 {
        lemma_best_cand_props(target, pal, entries, n - 1);
    }
}

/// Recovers the triple components from a linear candidate index.
pub proof fn lemma_cand_decompose(c1: int, c2: int, t: int, p: int, tt: int)
    requires
        0 <= c1 < p,
        0 <= c2 < p,
        0 <= t < tt,
    ensures
        cand_fg(c1 * (p * tt) + c2 * tt + t, p, tt) == c1,
        cand_bg(c1 * (p * tt) + c2 * tt + t, p, tt) == c2,
        cand_entry(c1 * (p * tt) + c2 * tt + t, p, tt) == t,
{
    let j = c1 * (p * tt) + c2 * tt + t;
    assert(0 <= c2 * tt + t < p * tt) by (nonlinear_arith)
        requires
            0 <= c2 < p,
            0 <= t < tt,
    ;
    vstd::arithmetic::div_mod::lemma_fundamental_div_mod_converse(j, p * tt, c1, c2 * tt + t);
    assert(j == (c1 * p + c2) * tt + t) by (nonlinear_arith)
        requires
            j == c1 * (p * tt) + c2 * tt + t,
    ;
    vstd::arithmetic::div_mod::lemma_fundamental_div_mod_converse(j, tt, c1 * p + c2, t);
    assert(j / tt == c1 * p + c2);
    assert((c1 * p + c2) % p == c2) by {
        vstd::arithmetic::div_mod::lemma_mod_multiples_vanish(c1, c2, p);
        vstd::arithmetic::div_mod::lemma_small_mod(c2 as nat, p as nat);
    }
}

/// The matcher's choice for one target pixel.
pub struct Match {
    pub fg: usize,
    pub bg: usize,
    pub entry: usize,
    pub combined: Pixel,
}

/// A match is the decomposition of the best linear candidate.
pub open spec fn match_ok(
    m: Match,
    target: Pixel,
    pal: Seq<Pixel>,
    entries: Seq<CoverageEntry>,
) -> bool {
    let p = pal.len() as int;
    let t = entries.len() as int;
    let b = best_cand(target, pal, entries, p * p * t);
    &&& m.fg as int == cand_fg(b, p, t)
    &&& m.bg as int == cand_bg(b, p, t)
    &&& m.entry as int == cand_entry(b, p, t)
    &&& m.combined == blend_spec(pal[m.fg as int], pal[m.bg as int], entries[m.entry as int].cov as int)
}

/// Searches every (foreground, background, coverage) triple and returns the
/// one of minimal score, earliest in enumeration order on ties.
pub fn match_cell(target: Pixel, palette: &Vec<Pixel>, table: &CoverageTable) -> (m: Match)
    requires
        in_unit(target),
        palette_wf(palette@),
        table.wf(),
        table.entries@.len() >= 1,
    ensures
        match_ok(m, target, palette@, table.entries@),
        m.fg < palette@.len(),
        m.bg < palette@.len(),
        m.entry < table.entries@.len(),
        in_unit(m.combined),
{
    let p = palette.len();
    let t = table.entries.len();
    let ghost pal = palette@;
    let ghost entries = table.entries@;
    let mut best_fg: usize = 0;
    let mut best_bg: usize = 0;
    let mut best_entry: usize = 0;
    let mut best_combined = crate::pixel::Pixel::black();
    let mut best_score: i64 = i64::MAX;
    let ghost mut bj: int = 0;
    let mut c1: usize = 0;
    while c1 < p
        invariant
            in_unit(target),
            palette_wf(pal),
            pal == palette@,
            entries == table.entries@,
            table.wf(),
            p == pal.len(),
            t == entries.len(),
            1 <= t,
            0 <= c1 <= p,
            c1 * (p * t) >= 0,
            c1 == 0 ==> best_score == i64::MAX,
            c1 > 0 ==> {
                &&& bj == best_cand(target, pal, entries, c1 * (p * t))
                &&& best_fg as int == cand_fg(bj, p as int, t as int)
                &&& best_bg as int == cand_bg(bj, p as int, t as int)
                &&& best_entry as int == cand_entry(bj, p as int, t as int)
                &&& best_score == cand_score(target, pal, entries, bj)
                &&& best_fg < p && best_bg < p && best_entry < t
                &&& best_combined == blend_spec(
                    pal[best_fg as int],
                    pal[best_bg as int],
                    entries[best_entry as int].cov as int,
                )
                &&& in_unit(best_combined)
            },
        decreases p - c1,
    {
        let fg_px = palette[c1];
        let mut c2: usize = 0;
        while c2 < p
            invariant
                in_unit(target),
                palette_wf(pal),
                pal == palette@,
                entries == table.entries@,
                table.wf(),
                p == pal.len(),
                t == entries.len(),
                1 <= t,
                c1 < p,
                fg_px == pal[c1 as int],
                0 <= c2 <= p,
                c1 * (p * t) + c2 * t >= 0,
                c1 == 0 && c2 == 0 ==> best_score == i64::MAX,
                c1 * (p * t) + c2 * t > 0 ==> {
                    &&& bj == best_cand(target, pal, entries, c1 * (p * t) + c2 * t)
                    &&& best_fg as int == cand_fg(bj, p as int, t as int)
                    &&& best_bg as int == cand_bg(bj, p as int, t as int)
                    &&& best_entry as int == cand_entry(bj, p as int, t as int)
                    &&& best_score == cand_score(target, pal, entries, bj)
                    &&& best_fg < p && best_bg < p && best_entry < t
                    &&& best_combined == blend_spec(
                        pal[best_fg as int],
                        pal[best_bg as int],
                        entries[best_entry as int].cov as int,
                    )
                    &&& in_unit(best_combined)
                },
            decreases p - c2,
        {
            let bg_px = palette[c2];
            let mut ti: usize = 0;
            while ti < t
                invariant
                    in_unit(target),
                    palette_wf(pal),
                    pal == palette@,
                    entries == table.entries@,
                    table.wf(),
                    p == pal.len(),
                    t == entries.len(),
                    1 <= t,
                    c1 < p,
                    c2 < p,
                    fg_px == pal[c1 as int],
                    bg_px == pal[c2 as int],
                    0 <= ti <= t,
                    c1 * (p * t) + c2 * t + ti >= 0,
                    c1 == 0 && c2 == 0 && ti == 0 ==> best_score == i64::MAX,
                    c1 * (p * t) + c2 * t + ti > 0 ==> {
                        &&& bj == best_cand(target, pal, entries, c1 * (p * t) + c2 * t + ti)
                        &&& best_fg as int == cand_fg(bj, p as int, t as int)
                        &&& best_bg as int == cand_bg(bj, p as int, t as int)
                        &&& best_entry as int == cand_entry(bj, p as int, t as int)
                        &&& best_score == cand_score(target, pal, entries, bj)
                        &&& best_fg < p && best_bg < p && best_entry < t
                        &&& best_combined == blend_spec(
                            pal[best_fg as int],
                            pal[best_bg as int],
                            entries[best_entry as int].cov as int,
                        )
                        &&& in_unit(best_combined)
                    },
                decreases t - ti,
            {
                let ghost j = c1 * (p * t) + c2 * t + ti;
                let cov = table.entries[ti].cov;
                let combined = blend(fg_px, bg_px, cov);
                let sc = score(target, fg_px, bg_px, cov);
                proof {
                    lemma_cand_decompose(c1 as int, c2 as int, ti as int, p as int, t as int);
                    assert(cand_score(target, pal, entries, j) == sc);
                    assert(36 * FP_ONE * FP_ONE < i64::MAX);
                    assert(j == 0 ==> c1 == 0 && c2 == 0 && ti == 0) by (nonlinear_arith)
                        requires
                            p >= 1,
                            t >= 1,
                            0 <= c1,
                            0 <= c2,
                            0 <= ti,
                            j == c1 * (p * t) + c2 * t + ti,
                    ;
                    if j > 0 {
                        assert(best_cand(target, pal, entries, j + 1) == if cand_score(
                            target,
                            pal,
                            entries,
                            j,
                        ) < cand_score(target, pal, entries, bj) {
                            j
                        } else {
                            bj
                        });
                    } else {
                        assert(best_cand(target, pal, entries, 1) == 0);
                    }
                }
                if sc < best_score {
                    best_fg = c1;
                    best_bg = c2;
                    best_entry = ti;
                    best_combined = combined;
                    best_score = sc;
                    proof {
                        bj = j;
                    }
                }
                proof {
                    assert(c1 * (p * t) + c2 * t + (ti + 1) == j + 1);
                }
                ti = ti + 1;
            }
            proof {
                assert(c1 * (p * t) + (c2 + 1) * t == c1 * (p * t) + c2 * t + t)
                    by (nonlinear_arith);
                assert(t >= 1);
            }
            c2 = c2 + 1;
        }
        proof {
            assert((c1 + 1) * (p * t) == c1 * (p * t) + p * t) by (nonlinear_arith);
            assert(p * t >= 1) by (nonlinear_arith)
                requires
                    p >= 1,
                    t >= 1,
            ;
        }
        c1 = c1 + 1;
    }
    proof {
        assert(p * (p * t) == p * p * t) by (nonlinear_arith);
        assert(p >= 1 && t >= 1);
        assert(p * p * t >= 1) by (nonlinear_arith)
            requires
                p >= 1,
                t >= 1,
        ;
    }
    Match { fg: best_fg, bg: best_bg, entry: best_entry, combined: best_combined }
}


/// A candidate index in range decomposes into in-range components.
pub proof fn lemma_cand_ranges(j: int, p: int, t: int)
    requires
        p >= 1,
        t >= 1,
        0 <= j < p * p * t,
    ensures
        0 <= cand_fg(j, p, t) < p,
        0 <= cand_bg(j, p, t) < p,
        0 <= cand_entry(j, p, t) < t,
        j == cand_fg(j, p, t) * (p * t) + cand_bg(j, p, t) * t + cand_entry(j, p, t),
{
    assert(p * t > 0) by (nonlinear_arith)
        requires
            p >= 1,
            t >= 1,
    ;
    assert(j < (p * t) * p) by (nonlinear_arith)
        requires
            j < p * p * t;
    vstd::arithmetic::div_mod::lemma_multiply_divide_lt(j, p * t, p);
    vstd::arithmetic::div_mod::lemma_div_pos_is_pos(j, p * t);
    vstd::arithmetic::div_mod::lemma_div_pos_is_pos(j, t);
    vstd::arithmetic::div_mod::lemma_mod_division_less_than_divisor(j / t, p);
    vstd::arithmetic::div_mod::lemma_mod_division_less_than_divisor(j, t);
    vstd::arithmetic::div_mod::lemma_fundamental_div_mod(j, t);
    vstd::arithmetic::div_mod::lemma_fundamental_div_mod(j / t, p);
    vstd::arithmetic::div_mod::lemma_div_denominator(j, t, p);
    assert(t * p == p * t) by (nonlinear_arith);
    assert(j == t * (p * ((j / t) / p) + (j / t) % p) + j % t ==> j == ((j / t) / p) * (p * t)
        + ((j / t) % p) * t + j % t) by (nonlinear_arith);
}

/// The enumeration order of candidates is exactly the lexicographic order
/// on (foreground, background, coverage entry): an earlier candidate has a
/// lexicographically lower triple.  Together with [`lemma_best_cand_props`]
/// this makes the tie-break the lowest such triple among minimal scores.
pub proof fn lemma_cand_order_is_lex(j1: int, j2: int, p: int, t: int)
    requires
        p >= 1,
        t >= 1,
        0 <= j1 < p * p * t,
        0 <= j2 < p * p * t,
    ensures
        j1 < j2 <==> (cand_fg(j1, p, t) < cand_fg(j2, p, t) || (cand_fg(j1, p, t) == cand_fg(
            j2,
            p,
            t,
        ) && (cand_bg(j1, p, t) < cand_bg(j2, p, t) || (cand_bg(j1, p, t) == cand_bg(j2, p, t)
            && cand_entry(j1, p, t) < cand_entry(j2, p, t))))),
{
    lemma_cand_ranges(j1, p, t);
    lemma_cand_ranges(j2, p, t);
    let f1 = cand_fg(j1, p, t);
    let b1 = cand_bg(j1, p, t);
    let e1 = cand_entry(j1, p, t);
    let f2 = cand_fg(j2, p, t);
    let b2 = cand_bg(j2, p, t);
    let e2 = cand_entry(j2, p, t);
    if f1 < f2 {
        assert(j1 < j2) by (nonlinear_arith)
            requires
                j1 == f1 * (p * t) + b1 * t + e1,
                j2 == f2 * (p * t) + b2 * t + e2,
                f1 < f2,
                b1 < p,
                e1 < t,
                0 <= b2,
                0 <= e2,
                0 <= e1,
                0 <= b1,
                t >= 1,
                p >= 1,
        ;
    } else if f1 == f2 && b1 < b2 {
        assert(j1 < j2) by (nonlinear_arith)
            requires
                j1 == f1 * (p * t) + b1 * t + e1,
                j2 == f2 * (p * t) + b2 * t + e2,
                f1 == f2,
                b1 < b2,
                e1 < t,
                0 <= e2,
                0 <= e1,
                t >= 1,
        ;
    } else if f1 == f2 && b1 == b2 && e1 < e2 {
        assert(j1 < j2);
    } else {
        // The triple of `j1` is not lexicographically lower; by symmetry
        // `j1 >= j2`.
        if f2 < f1 {
            assert(j2 < j1) by (nonlinear_arith)
                requires
                    j1 == f1 * (p * t) + b1 * t + e1,
                    j2 == f2 * (p * t) + b2 * t + e2,
                    f2 < f1,
                    b2 < p,
                    e2 < t,
                    0 <= b1,
                    0 <= e1,
                    0 <= e2,
                    0 <= b2,
                    t >= 1,
                    p >= 1,
            ;
        } else if f2 == f1 && b2 < b1 {
            assert(j2 < j1) by (nonlinear_arith)
                requires
                    j1 == f1 * (p * t) + b1 * t + e1,
                    j2 == f2 * (p * t) + b2 * t + e2,
                    f2 == f1,
                    b2 < b1,
                    e2 < t,
                    0 <= e1,
                    0 <= e2,
                    t >= 1,
            ;
        } else if f2 == f1 && b2 == b1 && e2 < e1 {
            assert(j2 < j1);
        } else {
            assert(f1 == f2 && b1 == b2 && e1 == e2);
            assert(j1 == j2);
        }
    }
}

} // verus!

