//! Per-pixel colour transform between RGB and a luma/chroma triple.
//!
//! Every value is a scaled integer.  A channel normalised to `[0, 1]` is
//! kept as a numerator over `1_000_000`; a luma or chroma component as a
//! numerator over `1_000_000_000_000` (the channel scale squared), so the
//! linear map with six-decimal coefficients is computed exactly.  The only
//! rounding steps are the normalisation of a channel and the final return
//! to integer channels.

use crate::numeric::{
    lemma_round_div_error, lemma_round_div_unique, round_div, round_div_i128, round_div_i64,
};
use vstd::prelude::*;

verus! {

/// One image pixel: three channels scaled against the image's denominator.
#[derive(Clone, Copy, Debug, PartialEq, Eq, Structural)]
pub struct Pixel {
    pub red: u16,
    pub green: u16,
    pub blue: u16,
}

/// A pixel is valid for a denominator when no channel exceeds it.
pub open spec fn pixel_wf(p: Pixel, den: int) -> bool {
    p.red <= den && p.green <= den && p.blue <= den
}

/// One luma/chroma sample: `y` nominally in `[0, 1]`, `pb` and `pr`
/// centred on zero, all as numerators over `1_000_000_000_000`.
#[derive(Clone, Copy, Debug, PartialEq, Eq, Structural)]
pub struct ChromaSample {
    pub y: i64,
    pub pb: i64,
    pub pr: i64,
}

/// The range every sample stays in: forward transforms give
/// `y in [0, 1]`, decoded samples can leave `[0, 1]` by at most the sum of
/// the coefficient ranges, and chroma components never pass one half.
pub open spec fn sample_wf(s: ChromaSample) -> bool {
    -2_000_000_000_000 <= s.y <= 2_000_000_000_000 && -500_000_000_000 <= s.pb
        <= 500_000_000_000 && -500_000_000_000 <= s.pr <= 500_000_000_000
}

/// A channel normalised to `[0, 1]` at scale `1_000_000`.
pub open spec fn norm_channel(c: int, den: int) -> int {
    round_div(c * 1_000_000, den)
}

/// Luma of a pixel: `0.299 r + 0.587 g + 0.114 b` over the normalised
/// channels, at scale `1_000_000_000_000`.
pub open spec fn spec_luma(p: Pixel, den: int) -> int {
    299_000 * norm_channel(p.red as int, den) + 587_000 * norm_channel(p.green as int, den)
        + 114_000 * norm_channel(p.blue as int, den)
}

/// Blue-difference chroma: `-0.168736 r - 0.331264 g + 0.5 b`.
pub open spec fn spec_pb(p: Pixel, den: int) -> int {
    -168_736 * norm_channel(p.red as int, den) - 331_264 * norm_channel(p.green as int, den)
        + 500_000 * norm_channel(p.blue as int, den)
}

/// Red-difference chroma: `0.5 r - 0.418688 g - 0.081312 b`.
pub open spec fn spec_pr(p: Pixel, den: int) -> int {
    500_000 * norm_channel(p.red as int, den) - 418_688 * norm_channel(p.green as int, den)
        - 81_312 * norm_channel(p.blue as int, den)
}

/// `v` forced into `[lo, hi]`.
pub open spec fn clamp(v: int, lo: int, hi: int) -> int {
    if v < lo {
        lo
    } else if v > hi {
        hi
    } else {
        v
    }
}

/// A reconstructed channel: the inverse linear form at scale `10^18`
/// (sample scale times coefficient scale), carried to the denominator,
/// rounded to the nearest integer and clamped to `[0, den]`.
pub open spec fn inv_channel(inner: int, den: int) -> int {
    clamp(round_div(inner * den, 1_000_000_000_000_000_000), 0, den)
}

/// The inverse linear form for red: `y + 1.402 pr`.
pub open spec fn spec_inv_red(y: int, pb: int, pr: int) -> int {
    1_000_000 * y + 1_402_000 * pr
}

/// The inverse linear form for green: `y - 0.344136 pb - 0.714136 pr`.
pub open spec fn spec_inv_green(y: int, pb: int, pr: int) -> int {
    1_000_000 * y - 344_136 * pb - 714_136 * pr
}

/// The inverse linear form for blue: `y + 1.772 pb`.
pub open spec fn spec_inv_blue(y: int, pb: int, pr: int) -> int {
    1_000_000 * y + 1_772_000 * pb
}

/// A normalised channel lies in `[0, 1_000_000]`.
proof fn lemma_norm_channel_range(c: int, den: int)
    requires
        1 <= den,
        0 <= c <= den,
    ensures
        0 <= norm_channel(c, den) <= 1_000_000,
{
    lemma_round_div_error(c * 1_000_000, den);
    let q = round_div(c * 1_000_000, den);
    assert(0 <= q && q <= 1_000_000) by (nonlinear_arith)
        requires
            1 <= den,
            0 <= c <= den,
            2 * (c * 1_000_000 - q * den) <= den,
            -den <= 2 * (c * 1_000_000 - q * den),
    ;
}

/// Convert one pixel to its luma/chroma sample: normalise each channel to
/// `[0, 1]`, then apply the fixed linear map exactly.
pub fn rgb_to_chroma(p: &Pixel, den: u16) -> (s: ChromaSample)
    requires
        1 <= den,
        pixel_wf(*p, den as int),
    ensures
        s.y as int == spec_luma(*p, den as int),
        s.pb as int == spec_pb(*p, den as int),
        s.pr as int == spec_pr(*p, den as int),
        0 <= s.y <= 1_000_000_000_000,
        sample_wf(s),
{
    proof {
        lemma_norm_channel_range(p.red as int, den as int);
        lemma_norm_channel_range(p.green as int, den as int);
        lemma_norm_channel_range(p.blue as int, den as int);
    }
    let r: i64 = round_div_i64(p.red as i64 * 1_000_000, den as i64);
    let g: i64 = round_div_i64(p.green as i64 * 1_000_000, den as i64);
    let b: i64 = round_div_i64(p.blue as i64 * 1_000_000, den as i64);
    ChromaSample {
        y: 299_000 * r + 587_000 * g + 114_000 * b,
        pb: 500_000 * b - 168_736 * r - 331_264 * g,
        pr: 500_000 * r - 418_688 * g - 81_312 * b,
    }
}

/// Convert one luma/chroma sample back to a pixel: apply the inverse
/// linear map exactly, then round to the denominator's scale and clamp
/// each channel to `[0, den]`.
pub fn chroma_to_rgb(s: &ChromaSample, den: u16) -> (p: Pixel)
    requires
        1 <= den,
        sample_wf(*s),
    ensures
        p.red as int == inv_channel(spec_inv_red(s.y as int, s.pb as int, s.pr as int), den as int),
        p.green as int == inv_channel(
            spec_inv_green(s.y as int, s.pb as int, s.pr as int),
            den as int,
        ),
        p.blue as int == inv_channel(
            spec_inv_blue(s.y as int, s.pb as int, s.pr as int),
            den as int,
        ),
        pixel_wf(p, den as int),
{
    let inner_r: i64 = 1_000_000 * s.y + 1_402_000 * s.pr;
    let inner_g: i64 = 1_000_000 * s.y - 344_136 * s.pb - 714_136 * s.pr;
    let inner_b: i64 = 1_000_000 * s.y + 1_772_000 * s.pb;
    Pixel {
        red: scale_to_channel(inner_r, den),
        green: scale_to_channel(inner_g, den),
        blue: scale_to_channel(inner_b, den),
    }
}

/// One reconstructed channel is recovered exactly when its inverse linear
/// form is the sample scale times the normalised channel plus a small
/// residue: the residue and the normalisation error together stay well
/// under half a rounding unit.
proof fn lemma_channel_exact(den: int, ch: int, q6: int, resid: int)
    requires
        1 <= den <= 65535,
        0 <= ch <= den,
        2 * (ch * 1_000_000 - q6 * den) <= den,
        -den <= 2 * (ch * 1_000_000 - q6 * den),
        -600_000_000_000 <= resid <= 600_000_000_000,
    ensures
        inv_channel(1_000_000_000_000 * q6 + resid, den) == ch,
{
    let inner = 1_000_000_000_000 * q6 + resid;
    assert(inner * den == 1_000_000_000_000 * (q6 * den) + resid * den) by (nonlinear_arith)
        requires
            inner == 1_000_000_000_000 * q6 + resid,
    ;
    assert(resid * den <= 600_000_000_000 * den && -600_000_000_000 * den <= resid * den)
        by (nonlinear_arith)
        requires
            -600_000_000_000 <= resid <= 600_000_000_000,
            0 <= den,
    ;
    lemma_round_div_unique(inner * den, 1_000_000_000_000_000_000, ch);
}

/// The colour transform inverts exactly: converting a pixel to its
/// luma/chroma sample and that sample back to integer channels returns
/// every channel unchanged.  The residues of the fixed-coefficient inverse
/// map are too small to move any rounded channel by one.
pub proof fn lemma_color_round_trip(p: Pixel, den: u16)
    requires
        1 <= den,
        pixel_wf(p, den as int),
    ensures
        inv_channel(
            spec_inv_red(
                spec_luma(p, den as int),
                spec_pb(p, den as int),
                spec_pr(p, den as int),
            ),
            den as int,
        ) == p.red,
        inv_channel(
            spec_inv_green(
                spec_luma(p, den as int),
                spec_pb(p, den as int),
                spec_pr(p, den as int),
            ),
            den as int,
        ) == p.green,
        inv_channel(
            spec_inv_blue(
                spec_luma(p, den as int),
                spec_pb(p, den as int),
                spec_pr(p, den as int),
            ),
            den as int,
        ) == p.blue,
{
    let d = den as int;
    let r6 = norm_channel(p.red as int, d);
    let g6 = norm_channel(p.green as int, d);
    let b6 = norm_channel(p.blue as int, d);
    lemma_norm_channel_range(p.red as int, d);
    lemma_norm_channel_range(p.green as int, d);
    lemma_norm_channel_range(p.blue as int, d);
    lemma_round_div_error(p.red as int * 1_000_000, d);
    lemma_round_div_error(p.green as int * 1_000_000, d);
    lemma_round_div_error(p.blue as int * 1_000_000, d);
    let y = spec_luma(p, d);
    let pb = spec_pb(p, d);
    let pr = spec_pr(p, d);
    // The composite of the forward and inverse coefficient matrices is the
    // identity up to residues of at most 576_000 per normalised channel.
    assert(spec_inv_red(y, pb, pr) == 1_000_000_000_000 * r6 + (576_000 * b6 - 576_000 * g6));
    assert(spec_inv_green(y, pb, pr) == 1_000_000_000_000 * g6 + (132_096 * r6 + 41_472 * g6
        - 173_568 * b6));
    assert(spec_inv_blue(y, pb, pr) == 1_000_000_000_000 * b6 + (192_000 * g6 - 192_000 * r6));
    lemma_channel_exact(d, p.red as int, r6, 576_000 * b6 - 576_000 * g6);
    lemma_channel_exact(d, p.green as int, g6, 132_096 * r6 + 41_472 * g6 - 173_568 * b6);
    lemma_channel_exact(d, p.blue as int, b6, 192_000 * g6 - 192_000 * r6);
}

/// Carry one inverse linear form to the denominator's scale: round to the
/// nearest integer channel value and clamp to `[0, den]`.
fn scale_to_channel(inner: i64, den: u16) -> (c: u16)
    requires
        1 <= den,
        -3_000_000_000_000_000_000 <= inner <= 3_000_000_000_000_000_000,
    ensures
        c as int == inv_channel(inner as int, den as int),
{
    proof {
        assert(-200_000_000_000_000_000_000_000 <= (inner as int) * (den as int)
            && (inner as int) * (den as int) <= 200_000_000_000_000_000_000_000)
            by (nonlinear_arith)
            requires
                -3_000_000_000_000_000_000 <= inner as int <= 3_000_000_000_000_000_000,
                0 <= den as int <= 65535,
        ;
    }
    let v: i128 = inner as i128 * den as i128;
    let q: i128 = round_div_i128(v, 1_000_000_000_000_000_000);
    if q < 0 {
        0
    } else if q > den as i128 {
        den
    } else {
        q as u16
    }
}

} // verus!
