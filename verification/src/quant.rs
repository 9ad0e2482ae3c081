//! Median-cut color quantization: computed palettes.
//!
//! The source image's colors are split recursively: pick the channel with
//! the greatest variance (sum of squared deviations from the channel mean;
//! ties prefer red, then green, then blue), split around that channel's
//! mean, and recurse until `2^k` subsets remain.  Each leaf contributes the
//! arithmetic mean of its members; an empty leaf contributes black.

use vstd::prelude::*;
use vstd::seq_lib::lemma_seq_contains_after_push;

use crate::RenderError;
use crate::image::Image;
use crate::palette::palette_wf;
use crate::pixel::{FP_ONE, Pixel, div_nonneg, in_unit};

verus! {

broadcast use lemma_seq_contains_after_push;

/// A color channel.
#[derive(Clone, Copy, Debug, PartialEq, Eq, Structural)]
pub enum Chan {
    R,
    G,
    B,
}

/// The value of one channel of a pixel.
pub open spec fn chan_val(p: Pixel, c: Chan) -> int {
    match c {
        Chan::R => p.r as int,
        Chan::G => p.g as int,
        Chan::B => p.b as int,
    }
}

/// Reads one channel of a pixel.
pub fn chan_get(p: Pixel, c: Chan) -> (v: i64)
    ensures
        v as int == chan_val(p, c),
{
    match c {
        Chan::R => p.r,
        Chan::G => p.g,
        Chan::B => p.b,
    }
}

/// Sum of one channel over a pixel sequence.
pub open spec fn sum_chan(s: Seq<Pixel>, c: Chan) -> int
    decreases s.len(),
{
    if s.len() == 0 {
        0
    } else {
        sum_chan(s.drop_last(), c) + chan_val(s.last(), c)
    }
}

/// Mean of one channel (floor division; zero for an empty sequence).
pub open spec fn mean_chan(s: Seq<Pixel>, c: Chan) -> int {
    if s.len() == 0 {
        0
    } else {
        sum_chan(s, c) / (s.len() as int)
    }
}

/// Sum of squared deviations of one channel from `m`.
pub open spec fn ssd_about(s: Seq<Pixel>, c: Chan, m: int) -> int
    decreases s.len(),
{
    if s.len() == 0 {
        0
    } else {
        ssd_about(s.drop_last(), c, m) + (chan_val(s.last(), c) - m) * (chan_val(s.last(), c)
            - m)
    }
}

/// The variance measure of one channel: squared deviations from its mean.
pub open spec fn ssd_chan(s: Seq<Pixel>, c: Chan) -> int {
    ssd_about(s, c, mean_chan(s, c))
}

/// The channel with the greatest variance; ties prefer red, then green,
/// then blue.
pub open spec fn pick_chan(s: Seq<Pixel>) -> Chan {
    if ssd_chan(s, Chan::R) >= ssd_chan(s, Chan::G) && ssd_chan(s, Chan::R) >= ssd_chan(
        s,
        Chan::B,
    ) {
        Chan::R
    } else if ssd_chan(s, Chan::G) >= ssd_chan(s, Chan::B) {
        Chan::G
    } else {
        Chan::B
    }
}

/// The pixels whose channel `c` is at most `m`, in order.
pub open spec fn le_part(s: Seq<Pixel>, c: Chan, m: int) -> Seq<Pixel>
    decreases s.len(),
{
    if s.len() == 0 {
        Seq::empty()
    } else {
        let rest = le_part(s.drop_last(), c, m);
        if chan_val(s.last(), c) <= m {
            rest.push(s.last())
        } else {
            rest
        }
    }
}

/// The pixels whose channel `c` exceeds `m`, in order.
pub open spec fn gt_part(s: Seq<Pixel>, c: Chan, m: int) -> Seq<Pixel>
    decreases s.len(),
{
    if s.len() == 0 {
        Seq::empty()
    } else {
        let rest = gt_part(s.drop_last(), c, m);
        if chan_val(s.last(), c) > m {
            rest.push(s.last())
        } else {
            rest
        }
    }
}

/// The componentwise arithmetic mean of a pixel set (black when empty).
pub open spec fn mean_px(s: Seq<Pixel>) -> Pixel {
    Pixel {
        r: mean_chan(s, Chan::R) as i64,
        g: mean_chan(s, Chan::G) as i64,
        b: mean_chan(s, Chan::B) as i64,
    }
}

/// The `2^k` palette colors of median-cut quantization of `s`.
pub open spec fn mc_spec(s: Seq<Pixel>, k: int) -> Seq<Pixel>
    decreases k,
{
    if k <= 0 {
        seq![mean_px(s)]
    } else {
        let c = pick_chan(s);
        let m = mean_chan(s, c);
        mc_spec(le_part(s, c, m), k - 1) + mc_spec(gt_part(s, c, m), k - 1)
    }
}

/// Two to the `k`.
pub open spec fn two_pow(k: int) -> int
    decreases k,
{
    if k <= 0 {
        1
    } else {
        2 * two_pow(k - 1)
    }
}

/// Median cut on `s` with depth `k` yields exactly `2^k` colors.
pub proof fn lemma_mc_len(s: Seq<Pixel>, k: int)
    ensures
        mc_spec(s, k).len() == two_pow(k),
    decreases k,
{
    if k > 0 {
        let c = pick_chan(s);
        let m = mean_chan(s, c);
        lemma_mc_len(le_part(s, c, m), k - 1);
        lemma_mc_len(gt_part(s, c, m), k - 1);
    }
}

/// Sum bounds for a displayable pixel sequence.
proof fn lemma_sum_chan_bounds(s: Seq<Pixel>, c: Chan)
    requires
        forall|i: int| 0 <= i < s.len() ==> in_unit(#[trigger] s[i]),
    ensures
        0 <= sum_chan(s, c) <= s.len() * FP_ONE,
    decreases s.len(),
{
    if s.len() > 0 {
        assert(forall|i: int|
            0 <= i < s.drop_last().len() ==> in_unit(#[trigger] s.drop_last()[i]));
        lemma_sum_chan_bounds(s.drop_last(), c);
        assert(in_unit(s.last()));
        assert((s.len() - 1) * FP_ONE + FP_ONE == s.len() * FP_ONE) by (nonlinear_arith);
    } else {
        assert(s.len() * FP_ONE == 0) by (nonlinear_arith)
            requires
                s.len() == 0;
    }
}

/// The channel mean of a displayable pixel sequence is displayable.
pub proof fn lemma_mean_chan_unit(s: Seq<Pixel>, c: Chan)
    requires
        forall|i: int| 0 <= i < s.len() ==> in_unit(#[trigger] s[i]),
    ensures
        0 <= mean_chan(s, c) <= FP_ONE,
{
    if s.len() > 0 {
        lemma_sum_chan_bounds(s, c);
        let n = s.len() as int;
        vstd::arithmetic::div_mod::lemma_div_is_ordered(0, sum_chan(s, c), n);
        vstd::arithmetic::div_mod::lemma_div_is_ordered(sum_chan(s, c), n * FP_ONE, n);
        assert(n * FP_ONE / n == FP_ONE) by {
            vstd::arithmetic::div_mod::lemma_div_by_multiple(FP_ONE as int, n);
            assert(n * FP_ONE == FP_ONE * n) by (nonlinear_arith);
        }
    }
}

/// Squared-deviation sums are nonnegative and bounded for displayable
/// pixels about a displayable mean.
proof fn lemma_ssd_about_bounds(s: Seq<Pixel>, c: Chan, m: int)
    requires
        forall|i: int| 0 <= i < s.len() ==> in_unit(#[trigger] s[i]),
        0 <= m <= FP_ONE,
    ensures
        0 <= ssd_about(s, c, m) <= s.len() * (FP_ONE * FP_ONE),
    decreases s.len(),
{
    if s.len() > 0 {
        assert(forall|i: int|
            0 <= i < s.drop_last().len() ==> in_unit(#[trigger] s.drop_last()[i]));
        lemma_ssd_about_bounds(s.drop_last(), c, m);
        assert(in_unit(s.last()));
        let d = chan_val(s.last(), c) - m;
        assert(0 <= d * d <= FP_ONE * FP_ONE) by (nonlinear_arith)
            requires
                -FP_ONE <= d <= FP_ONE;
        assert((s.len() - 1) * (FP_ONE * FP_ONE) + FP_ONE * FP_ONE == s.len() * (FP_ONE
            * FP_ONE)) by (nonlinear_arith);
    } else {
        assert(s.len() * (FP_ONE * FP_ONE) == 0) by (nonlinear_arith)
            requires
                s.len() == 0;
    }
}

/// Splitting partitions the sequence: member counts add up, members keep
/// their side by the split test, and every member of a part is a member of
/// the whole.
pub proof fn lemma_part_membership(s: Seq<Pixel>, c: Chan, m: int)
    ensures
        le_part(s, c, m).len() + gt_part(s, c, m).len() == s.len(),
        forall|x: Pixel|
            #[trigger] le_part(s, c, m).contains(x) <==> (s.contains(x) && chan_val(x, c) <= m),
        forall|x: Pixel|
            #[trigger] gt_part(s, c, m).contains(x) <==> (s.contains(x) && chan_val(x, c) > m),
    decreases s.len(),
{
    if s.len() > 0 {
        lemma_part_membership(s.drop_last(), c, m);
        assert forall|x: Pixel| #[trigger] s.contains(x) implies (s.drop_last().contains(x)
            || s.last() == x) by {
            let i = choose|i: int| 0 <= i < s.len() && s[i] == x;
            if i < s.len() - 1 {
                assert(s.drop_last()[i] == x);
            }
        }
        assert(forall|x: Pixel|
            #[trigger] s.drop_last().contains(x) ==> s.contains(x)) by {
            assert forall|x: Pixel| #[trigger] s.drop_last().contains(x) implies s.contains(
                x,
            ) by {
                let i = choose|i: int| 0 <= i < s.drop_last().len() && s.drop_last()[i] == x;
                assert(s[i] == x);
            }
        }
        assert(s.contains(s.last())) by {
            assert(s[s.len() - 1] == s.last());
        }
    }
}

/// Computes the sum of one channel.
fn sum_chan_exec(pixels: &Vec<Pixel>, c: Chan) -> (s: i64)
    requires
        pixels@.len() <= 0x100000,
        forall|i: int| 0 <= i < pixels@.len() ==> in_unit(#[trigger] pixels@[i]),
    ensures
        s as int == sum_chan(pixels@, c),
        0 <= s <= pixels@.len() * FP_ONE,
{
    let mut s: i64 = 0;
    let mut i: usize = 0;
    while i < pixels.len()
        invariant
            pixels@.len() <= 0x100000,
            forall|k: int| 0 <= k < pixels@.len() ==> in_unit(#[trigger] pixels@[k]),
            0 <= i <= pixels@.len(),
            s as int == sum_chan(pixels@.subrange(0, i as int), c),
            0 <= s <= i * FP_ONE,
        decreases pixels@.len() - i,
    {
        let v = chan_get(pixels[i], c);
        proof {
            assert(pixels@.subrange(0, i + 1).drop_last() =~= pixels@.subrange(0, i as int));
            assert(pixels@.subrange(0, i + 1).last() == pixels@[i as int]);
            assert(i * FP_ONE + FP_ONE == (i + 1) * FP_ONE) by (nonlinear_arith);
            assert((i + 1) * FP_ONE <= 0x100000 * FP_ONE) by (nonlinear_arith)
                requires
                    i + 1 <= 0x100000;
        }
        s = s + v;
        i = i + 1;
    }
    proof {
        assert(pixels@.subrange(0, pixels@.len() as int) =~= pixels@);
        lemma_sum_chan_bounds(pixels@, c);
    }
    s
}

/// Computes the mean of one channel.
fn mean_chan_exec(pixels: &Vec<Pixel>, c: Chan) -> (m: i64)
    requires
        pixels@.len() <= 0x100000,
        forall|i: int| 0 <= i < pixels@.len() ==> in_unit(#[trigger] pixels@[i]),
    ensures
        m as int == mean_chan(pixels@, c),
        0 <= m <= FP_ONE,
{
    proof {
        lemma_mean_chan_unit(pixels@, c);
    }
    if pixels.len() == 0 {
        0
    } else {
        let s = sum_chan_exec(pixels, c);
        div_nonneg(s, pixels.len() as i64)
    }
}

/// Computes the squared-deviation sum of one channel about its mean.
fn ssd_chan_exec(pixels: &Vec<Pixel>, c: Chan) -> (v: i64)
    requires
        pixels@.len() <= 0x100000,
        forall|i: int| 0 <= i < pixels@.len() ==> in_unit(#[trigger] pixels@[i]),
    ensures
        v as int == ssd_chan(pixels@, c),
{
    let m = mean_chan_exec(pixels, c);
    let mut v: i64 = 0;
    let mut i: usize = 0;
    while i < pixels.len()
        invariant
            pixels@.len() <= 0x100000,
            forall|k: int| 0 <= k < pixels@.len() ==> in_unit(#[trigger] pixels@[k]),
            0 <= m <= FP_ONE,
            m as int == mean_chan(pixels@, c),
            0 <= i <= pixels@.len(),
            v as int == ssd_about(pixels@.subrange(0, i as int), c, m as int),
            0 <= v <= i * (FP_ONE * FP_ONE),
        decreases pixels@.len() - i,
    {
        let x = chan_get(pixels[i], c);
        let d = x - m;
        proof {
            assert(pixels@.subrange(0, i + 1).drop_last() =~= pixels@.subrange(0, i as int));
            assert(pixels@.subrange(0, i + 1).last() == pixels@[i as int]);
            assert(in_unit(pixels@[i as int]));
            assert(0 <= d * d <= FP_ONE * FP_ONE) by (nonlinear_arith)
                requires
                    -FP_ONE <= d <= FP_ONE;
            assert(i * (FP_ONE * FP_ONE) + FP_ONE * FP_ONE == (i + 1) * (FP_ONE * FP_ONE))
                by (nonlinear_arith);
            assert((i + 1) * (FP_ONE * FP_ONE) <= 0x100000 * (FP_ONE * FP_ONE))
                by (nonlinear_arith)
                requires
                    i + 1 <= 0x100000;
        }
        v = v + d * d;
        i = i + 1;
    }
    proof {
        assert(pixels@.subrange(0, pixels@.len() as int) =~= pixels@);
    }
    v
}

/// Picks the channel of greatest variance (ties prefer red, then green).
fn pick_chan_exec(pixels: &Vec<Pixel>) -> (c: Chan)
    requires
        pixels@.len() <= 0x100000,
        forall|i: int| 0 <= i < pixels@.len() ==> in_unit(#[trigger] pixels@[i]),
    ensures
        c == pick_chan(pixels@),
{
    let sr = ssd_chan_exec(pixels, Chan::R);
    let sg = ssd_chan_exec(pixels, Chan::G);
    let sb = ssd_chan_exec(pixels, Chan::B);
    if sr >= sg && sr >= sb {
        Chan::R
    } else if sg >= sb {
        Chan::G
    } else {
        Chan::B
    }
}

/// Splits the pixels around `m` on channel `c`.
fn split_exec(pixels: &Vec<Pixel>, c: Chan, m: i64) -> (r: (Vec<Pixel>, Vec<Pixel>))
    ensures
        r.0@ == le_part(pixels@, c, m as int),
        r.1@ == gt_part(pixels@, c, m as int),
{
    let mut lo: Vec<Pixel> = Vec::new();
    let mut hi: Vec<Pixel> = Vec::new();
    let mut i: usize = 0;
    while i < pixels.len()
        invariant
            0 <= i <= pixels@.len(),
            lo@ == le_part(pixels@.subrange(0, i as int), c, m as int),
            hi@ == gt_part(pixels@.subrange(0, i as int), c, m as int),
        decreases pixels@.len() - i,
    {
        let p = pixels[i];
        proof {
            assert(pixels@.subrange(0, i + 1).drop_last() =~= pixels@.subrange(0, i as int));
            assert(pixels@.subrange(0, i + 1).last() == pixels@[i as int]);
        }
        if chan_get(p, c) <= m {
            lo.push(p);
        } else {
            hi.push(p);
        }
        i = i + 1;
    }
    proof {
        assert(pixels@.subrange(0, pixels@.len() as int) =~= pixels@);
    }
    (lo, hi)
}

/// Computes the componentwise mean color of a pixel set.
fn mean_px_exec(pixels: &Vec<Pixel>) -> (p: Pixel)
    requires
        pixels@.len() <= 0x100000,
        forall|i: int| 0 <= i < pixels@.len() ==> in_unit(#[trigger] pixels@[i]),
    ensures
        p == mean_px(pixels@),
        in_unit(p),
{
    proof {
        lemma_mean_chan_unit(pixels@, Chan::R);
        lemma_mean_chan_unit(pixels@, Chan::G);
        lemma_mean_chan_unit(pixels@, Chan::B);
    }
    Pixel {
        r: mean_chan_exec(pixels, Chan::R),
        g: mean_chan_exec(pixels, Chan::G),
        b: mean_chan_exec(pixels, Chan::B),
    }
}

/// Recursive median cut: splits `k` times and collects the leaf means.
fn median_cut_rec(pixels: Vec<Pixel>, k: usize) -> (r: Vec<Pixel>)
    requires
        pixels@.len() <= 0x100000,
        forall|i: int| 0 <= i < pixels@.len() ==> in_unit(#[trigger] pixels@[i]),
    ensures
        r@ == mc_spec(pixels@, k as int),
        forall|i: int| 0 <= i < r@.len() ==> in_unit(#[trigger] r@[i]),
    decreases k,
{
    if k == 0 {
        let p = mean_px_exec(&pixels);
        let mut r: Vec<Pixel> = Vec::new();
        r.push(p);
        proof {
            assert(r@ =~= seq![mean_px(pixels@)]);
        }
        r
    } else {
        let c = pick_chan_exec(&pixels);
        let m = mean_chan_exec(&pixels, c);
        let (lo, hi) = split_exec(&pixels, c, m);
        proof {
            lemma_part_membership(pixels@, c, m as int);
            assert forall|i: int| 0 <= i < lo@.len() implies in_unit(#[trigger] lo@[i]) by {
                assert(lo@.contains(lo@[i]));
                let j = choose|j: int| 0 <= j < pixels@.len() && pixels@[j] == lo@[i];
                assert(in_unit(pixels@[j]));
            }
            assert forall|i: int| 0 <= i < hi@.len() implies in_unit(#[trigger] hi@[i]) by {
                assert(hi@.contains(hi@[i]));
                let j = choose|j: int| 0 <= j < pixels@.len() && pixels@[j] == hi@[i];
                assert(in_unit(pixels@[j]));
            }
        }
        let mut left = median_cut_rec(lo, k - 1);
        let right = median_cut_rec(hi, k - 1);
        let ghost left0 = left@;
        let mut j: usize = 0;
        while j < right.len()
            invariant
                0 <= j <= right@.len(),
                left@ == left0 + right@.subrange(0, j as int),
            decreases right@.len() - j,
        {
            let p = right[j];
            left.push(p);
            proof {
                assert(left0 + right@.subrange(0, j + 1) =~= (left0 + right@.subrange(
                    0,
                    j as int,
                )).push(right@[j as int]));
            }
            j = j + 1;
        }
        proof {
            assert(right@.subrange(0, right@.len() as int) =~= right@);
            assert(left@ == mc_spec(pixels@, k as int));
            assert forall|i: int| 0 <= i < left@.len() implies in_unit(#[trigger] left@[i]) by {
                if i < left0.len() {
                    assert(left@[i] == left0[i]);
                } else {
                    assert(left@[i] == right@[i - left0.len()]);
                }
            }
        }
        left
    }
}

/// Builds a computed palette of `size` colors by median-cut quantization.
/// The size must be a power of two of at most 256.
pub fn computed_palette(img: &Image, size: usize) -> (r: Result<Vec<Pixel>, RenderError>)
    requires
        img.wf(),
        img.pixels@.len() <= 0x100000,
    ensures
        r is Ok <==> exists|k: int| 0 <= k <= 8 && #[trigger] two_pow(k) == size,
        r is Err ==> r == Result::<Vec<Pixel>, RenderError>::Err(
            RenderError::UnsupportedPaletteSize,
        ),
        r is Ok ==> {
            &&& r->Ok_0@.len() == size
            &&& palette_wf(r->Ok_0@)
            &&& exists|k: int|
                0 <= k <= 8 && #[trigger] two_pow(k) == size && r->Ok_0@ == mc_spec(
                    img.pixels@,
                    k,
                )
        },
{
    let mut k: usize = 0;
    let mut pw: usize = 1;
    while k <= 8 && pw != size
        invariant
            0 <= k <= 9,
            pw as int == two_pow(k as int),
            forall|kk: int| 0 <= kk < k ==> #[trigger] two_pow(kk) != size,
        decreases 9 - k,
    {
        proof {
            assert(two_pow(0) == 1);
            assert(two_pow(1) == 2);
            assert(two_pow(2) == 4);
            assert(two_pow(3) == 8);
            assert(two_pow(4) == 16);
            assert(two_pow(5) == 32);
            assert(two_pow(6) == 64);
            assert(two_pow(7) == 128);
            assert(two_pow(8) == 256);
        }
        pw = pw * 2;
        k = k + 1;
    }
    let found = k <= 8;
    if !found {
        return Err(RenderError::UnsupportedPaletteSize);
    }
    let mut src: Vec<Pixel> = Vec::new();
    let mut i: usize = 0;
    while i < img.pixels.len()
        invariant
            img.wf(),
            0 <= i <= img.pixels@.len(),
            src@ == img.pixels@.subrange(0, i as int),
        decreases img.pixels@.len() - i,
    {
        let p = img.pixels[i];
        src.push(p);
        proof {
            assert(img.pixels@.subrange(0, i + 1) =~= img.pixels@.subrange(0, i as int).push(
                img.pixels@[i as int],
            ));
        }
        i = i + 1;
    }
    proof {
        assert(img.pixels@.subrange(0, img.pixels@.len() as int) =~= img.pixels@);
        assert(forall|j: int| 0 <= j < src@.len() ==> in_unit(#[trigger] src@[j]));
    }
    let pal = median_cut_rec(src, k);
    proof {
        lemma_mc_len(img.pixels@, k as int);
        assert(two_pow(k as int) >= 1 && two_pow(k as int) <= 256) by {
            assert(two_pow(0) == 1);
            assert(two_pow(1) == 2);
            assert(two_pow(2) == 4);
            assert(two_pow(3) == 8);
            assert(two_pow(4) == 16);
            assert(two_pow(5) == 32);
            assert(two_pow(6) == 64);
            assert(two_pow(7) == 128);
            assert(two_pow(8) == 256);
        }
    }
    Ok(pal)
}

/// The channel sum of a sequence whose channel values all equal `v`.
proof fn lemma_sum_uniform(s: Seq<Pixel>, c: Chan, v: int)
    requires
        forall|i: int| 0 <= i < s.len() ==> chan_val(#[trigger] s[i], c) == v,
    ensures
        sum_chan(s, c) == s.len() * v,
    decreases s.len(),
{
    if s.len() > 0 {
        lemma_sum_uniform(s.drop_last(), c, v);
        assert(chan_val(s[s.len() - 1], c) == v);
        assert((s.len() - 1) * v + v == s.len() * v) by (nonlinear_arith);
    } else {
        assert(s.len() * v == 0) by (nonlinear_arith)
            requires
                s.len() == 0;
    }
}

/// The channel mean of a uniform nonempty sequence is the common value.
proof fn lemma_mean_uniform(s: Seq<Pixel>, c: Chan, v: int)
    requires
        s.len() >= 1,
        forall|i: int| 0 <= i < s.len() ==> chan_val(#[trigger] s[i], c) == v,
    ensures
        mean_chan(s, c) == v,
{
    lemma_sum_uniform(s, c, v);
    let n = s.len() as int;
    vstd::arithmetic::div_mod::lemma_div_multiples_vanish(v, n);
}

/// A uniform channel has zero variance.
proof fn lemma_ssd_about_uniform(s: Seq<Pixel>, c: Chan, v: int)
    requires
        forall|i: int| 0 <= i < s.len() ==> chan_val(#[trigger] s[i], c) == v,
    ensures
        ssd_about(s, c, v) == 0,
    decreases s.len(),
{
    if s.len() > 0 {
        lemma_ssd_about_uniform(s.drop_last(), c, v);
        assert(chan_val(s[s.len() - 1], c) == v);
        let d = chan_val(s.last(), c) - v;
        assert(d * d == 0) by (nonlinear_arith)
            requires
                d == 0;
    }
}

/// The squared-deviation sum is nonnegative and dominates each member's
/// term.
proof fn lemma_ssd_member(s: Seq<Pixel>, c: Chan, m: int, i: int)
    requires
        -1 <= i < s.len(),
    ensures
        ssd_about(s, c, m) >= 0,
        0 <= i ==> ssd_about(s, c, m) >= (chan_val(s[i], c) - m) * (chan_val(s[i], c) - m),
    decreases s.len(),
{
    if s.len() > 0 {
        let d = chan_val(s.last(), c) - m;
        assert(d * d >= 0) by (nonlinear_arith);
        if i == s.len() - 1 {
            lemma_ssd_member(s.drop_last(), c, m, -1);
        } else if i >= 0 {
            lemma_ssd_member(s.drop_last(), c, m, i);
            assert(s.drop_last()[i] == s[i]);
        } else {
            lemma_ssd_member(s.drop_last(), c, m, -1);
        }
    }
}

/// If all members qualify for the lower side, the split keeps them all.
proof fn lemma_le_part_all(s: Seq<Pixel>, c: Chan, m: int)
    requires
        forall|i: int| 0 <= i < s.len() ==> chan_val(#[trigger] s[i], c) <= m,
    ensures
        le_part(s, c, m) == s,
    decreases s.len(),
{
    if s.len() > 0 {
        lemma_le_part_all(s.drop_last(), c, m);
        assert(chan_val(s[s.len() - 1], c) <= m);
        assert(s.drop_last().push(s.last()) =~= s);
    } else {
        assert(le_part(s, c, m) =~= s);
    }
}

/// Median cut of a uniform nonempty set keeps its color among the leaves.
proof fn lemma_mc_uniform(s: Seq<Pixel>, v: Pixel, k: int)
    requires
        s.len() >= 1,
        forall|i: int| 0 <= i < s.len() ==> #[trigger] s[i] == v,
    ensures
        mc_spec(s, k).contains(v),
    decreases k,
{
    if k <= 0 {
        lemma_mean_uniform(s, Chan::R, v.r as int);
        lemma_mean_uniform(s, Chan::G, v.g as int);
        lemma_mean_uniform(s, Chan::B, v.b as int);
        assert(mean_px(s) == v);
        assert(mc_spec(s, k)[0] == v);
    } else {
        let c = pick_chan(s);
        lemma_mean_uniform(s, c, chan_val(v, c));
        let m = mean_chan(s, c);
        lemma_le_part_all(s, c, m);
        lemma_mc_uniform(s, v, k - 1);
        let left = mc_spec(le_part(s, c, m), k - 1);
        let right = mc_spec(gt_part(s, c, m), k - 1);
        let i = choose|i: int| 0 <= i < left.len() && left[i] == v;
        assert((left + right)[i] == v);
        assert(mc_spec(s, k).contains(v));
    }
}

/// Channel-sum bounds for a two-valued sequence with a witness at the low
/// value.
proof fn lemma_sum_two_valued(s: Seq<Pixel>, c: Chan, lo: int, hi: int, ia: int)
    requires
        lo <= hi,
        0 <= ia < s.len(),
        chan_val(s[ia], c) == lo,
        forall|i: int|
            0 <= i < s.len() ==> lo <= chan_val(#[trigger] s[i], c) <= hi,
    ensures
        s.len() * lo <= sum_chan(s, c) <= s.len() * hi - (hi - lo),
    decreases s.len(),
{
    let n = s.len() as int;
    if ia == n - 1 {
        assert forall|i: int| 0 <= i < n - 1 implies lo <= chan_val(
            #[trigger] s.drop_last()[i],
            c,
        ) <= hi by {
            assert(s.drop_last()[i] == s[i]);
        }
        lemma_sum_lo_hi(s.drop_last(), c, lo, hi);
        assert(chan_val(s.last(), c) == lo);
        assert((n - 1) * lo + lo == n * lo) by (nonlinear_arith);
        assert((n - 1) * hi + lo == n * hi - (hi - lo)) by (nonlinear_arith);
    } else {
        assert forall|i: int| 0 <= i < n - 1 implies lo <= chan_val(
            #[trigger] s.drop_last()[i],
            c,
        ) <= hi by {
            assert(s.drop_last()[i] == s[i]);
        }
        assert(s.drop_last()[ia] == s[ia]);
        lemma_sum_two_valued(s.drop_last(), c, lo, hi, ia);
        assert(lo <= chan_val(s.last(), c) <= hi);
        assert((n - 1) * lo + lo == n * lo) by (nonlinear_arith);
        assert((n - 1) * hi - (hi - lo) + hi == n * hi - (hi - lo)) by (nonlinear_arith);
    }
}

/// Channel-sum bounds from channel-value bounds alone.
proof fn lemma_sum_lo_hi(s: Seq<Pixel>, c: Chan, lo: int, hi: int)
    requires
        lo <= hi,
        forall|i: int|
            0 <= i < s.len() ==> lo <= chan_val(#[trigger] s[i], c) <= hi,
    ensures
        s.len() * lo <= sum_chan(s, c) <= s.len() * hi,
    decreases s.len(),
{
    let n = s.len() as int;
    if n > 0 {
        assert forall|i: int| 0 <= i < n - 1 implies lo <= chan_val(
            #[trigger] s.drop_last()[i],
            c,
        ) <= hi by {
            assert(s.drop_last()[i] == s[i]);
        }
        lemma_sum_lo_hi(s.drop_last(), c, lo, hi);
        assert(lo <= chan_val(s.last(), c) <= hi);
        assert((n - 1) * lo + lo == n * lo) by (nonlinear_arith);
        assert((n - 1) * hi + hi == n * hi) by (nonlinear_arith);
    } else {
        assert(n * lo == 0 && n * hi == 0) by (nonlinear_arith)
            requires
                n == 0;
    }
}

/// On a set holding exactly two distinct colors, median cut with at least
/// one split returns both colors among its leaves, exactly.
pub proof fn lemma_mc_two_colors(s: Seq<Pixel>, a: Pixel, b: Pixel, k: int)
    requires
        k >= 1,
        a != b,
        s.contains(a),
        s.contains(b),
        forall|i: int| 0 <= i < s.len() ==> #[trigger] s[i] == a || s[i] == b,
    ensures
        mc_spec(s, k).contains(a),
        mc_spec(s, k).contains(b),
{
    let c = pick_chan(s);
    let m = mean_chan(s, c);
    let n = s.len() as int;
    let ja = choose|j: int| 0 <= j < n && s[j] == a;
    let jb = choose|j: int| 0 <= j < n && s[j] == b;
    // The chosen channel really separates the two colors.
    assert(chan_val(a, c) != chan_val(b, c)) by {
        if chan_val(a, c) == chan_val(b, c) {
            // Uniform in c: its variance is zero ...
            let u = chan_val(a, c);
            assert(forall|i: int| 0 <= i < n ==> chan_val(#[trigger] s[i], c) == u);
            lemma_mean_uniform(s, c, u);
            lemma_ssd_about_uniform(s, c, u);
            assert(ssd_chan(s, c) == 0);
            // ... yet some channel has positive variance, and the pick
            // maximizes.
            let d = if a.r != b.r {
                Chan::R
            } else if a.g != b.g {
                Chan::G
            } else {
                Chan::B
            };
            assert(chan_val(a, d) != chan_val(b, d));
            let md = mean_chan(s, d);
            let jx = if chan_val(a, d) != md {
                ja
            } else {
                jb
            };
            assert(chan_val(s[jx], d) != md);
            lemma_ssd_member(s, d, md, jx);
            let dv = chan_val(s[jx], d) - md;
            assert(dv * dv > 0) by (nonlinear_arith)
                requires
                    dv != 0;
            assert(ssd_chan(s, d) > 0);
            assert(ssd_chan(s, c) >= ssd_chan(s, d));
        }
    }
    let xa = if chan_val(a, c) < chan_val(b, c) {
        a
    } else {
        b
    };
    let xb = if chan_val(a, c) < chan_val(b, c) {
        b
    } else {
        a
    };
    let lo = chan_val(xa, c);
    let hi = chan_val(xb, c);
    assert(lo < hi);
    let jx = if chan_val(a, c) < chan_val(b, c) {
        ja
    } else {
        jb
    };
    assert(forall|i: int| 0 <= i < n ==> lo <= chan_val(#[trigger] s[i], c) <= hi);
    lemma_sum_two_valued(s, c, lo, hi, jx);
    // The split mean lies in [lo, hi).
    assert(lo <= m < hi) by {
        vstd::arithmetic::div_mod::lemma_div_multiples_vanish(lo, n);
        vstd::arithmetic::div_mod::lemma_div_is_ordered(n * lo, sum_chan(s, c), n);
        assert(sum_chan(s, c) <= n * hi - 1);
        vstd::arithmetic::div_mod::lemma_div_is_ordered(sum_chan(s, c), n * hi - 1, n);
        assert((n * hi - 1) / n == hi - 1) by {
            assert(n * hi - 1 == (hi - 1) * n + (n - 1)) by (nonlinear_arith);
            vstd::arithmetic::div_mod::lemma_fundamental_div_mod_converse(
                n * hi - 1,
                n,
                hi - 1,
                n - 1,
            );
        }
    }
    lemma_part_membership(s, c, m);
    let left = le_part(s, c, m);
    let right = gt_part(s, c, m);
    assert(left.contains(xa));
    assert(right.contains(xb));
    // Each side is uniform in its color.
    assert forall|i: int| 0 <= i < left.len() implies #[trigger] left[i] == xa by {
        assert(left.contains(left[i]));
        let j = choose|j: int| 0 <= j < n && s[j] == left[i];
        assert(s[j] == a || s[j] == b);
    }
    assert forall|i: int| 0 <= i < right.len() implies #[trigger] right[i] == xb by {
        assert(right.contains(right[i]));
        let j = choose|j: int| 0 <= j < n && s[j] == right[i];
        assert(s[j] == a || s[j] == b);
    }
    lemma_mc_uniform(left, xa, k - 1);
    lemma_mc_uniform(right, xb, k - 1);
    assert(mc_spec(s, k) == mc_spec(left, k - 1) + mc_spec(right, k - 1));
    let il = choose|i: int|
        0 <= i < mc_spec(left, k - 1).len() && #[trigger] mc_spec(left, k - 1)[i] == xa;
    assert((mc_spec(left, k - 1) + mc_spec(right, k - 1))[il] == xa);
    let ir = choose|i: int|
        0 <= i < mc_spec(right, k - 1).len() && #[trigger] mc_spec(right, k - 1)[i] == xb;
    assert((mc_spec(left, k - 1) + mc_spec(right, k - 1))[mc_spec(left, k - 1).len() + ir]
        == xb);
    assert(mc_spec(s, k).contains(xa));
    assert(mc_spec(s, k).contains(xb));
}

} // verus!

