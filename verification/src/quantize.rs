//! Quantization of block coefficients and chroma averages into the narrow
//! integer ranges the codeword format reserves for them, and back.
//!
//! The averaged luma goes into nine unsigned bits; the three difference
//! coefficients are clamped to `[-0.3, 0.3]` and rescaled to `[-15, 15]`;
//! a chroma average is replaced by the index of the nearest entry of a
//! fixed sixteen-entry codebook.

use crate::numeric::{round_div, round_div_i64};
use vstd::prelude::*;

verus! {

/// Quantized averaged luma: `a` lies in `[0, 1]` as a sum over four times
/// the sample scale; its value is scaled by `2^9` and truncated.  Only the
/// one exact top value would reach `512`; it is held at `511` so that the
/// result always fits the nine-bit field.
pub open spec fn spec_quantize_luma(a: int) -> int {
    let q = (a * 128) / 1_000_000_000_000;
    if q > 511 {
        511
    } else {
        q
    }
}

/// Quantize the averaged luma sum into `[0, 511]`.
pub fn quantize_luma(a: i64) -> (q: u64)
    requires
        0 <= a <= 4_000_000_000_000,
    ensures
        q as int == spec_quantize_luma(a as int),
        q <= 511,
{
    proof {
        vstd::arithmetic::div_mod::lemma_div_is_ordered(
            a as int * 128,
            4_000_000_000_000i64 as int * 128,
            1_000_000_000_000,
        );
    }
    let q: u64 = (a as u64 * 128) / 1_000_000_000_000;
    if q > 511 {
        511
    } else {
        q
    }
}

/// The dequantized averaged luma, back at four times the sample scale:
/// the nine-bit value over `2^9`.
pub open spec fn spec_dequantize_luma(q: int) -> int {
    q * 7_812_500_000
}

/// Dequantize a nine-bit luma value.
pub fn dequantize_luma(q: u64) -> (a: i64)
    requires
        q <= 511,
    ensures
        a as int == spec_dequantize_luma(q as int),
        0 <= a <= 4_000_000_000_000,
{
    q as i64 * 7_812_500_000
}

/// Quantized difference coefficient: the coefficient sum, nominally in
/// `[-0.5, 0.5]` over four times the sample scale, is rescaled by
/// `15 / 0.3` with rounding and saturated to `[-15, 15]`, so values beyond
/// `[-0.3, 0.3]` clamp to the ends.
pub open spec fn spec_quantize_coeff(s: int) -> int {
    let q = round_div(s * 50, 4_000_000_000_000);
    if q < -15 {
        -15
    } else if q > 15 {
        15
    } else {
        q
    }
}

/// Quantize one difference coefficient sum into `[-15, 15]`.
pub fn quantize_coeff(s: i64) -> (q: i64)
    requires
        -8_000_000_000_000 <= s <= 8_000_000_000_000,
    ensures
        q as int == spec_quantize_coeff(s as int),
        -15 <= q <= 15,
{
    let raw: i64 = round_div_i64(s * 50, 4_000_000_000_000);
    if raw < -15 {
        -15
    } else if raw > 15 {
        15
    } else {
        raw
    }
}

/// The dequantized difference coefficient, back at four times the sample
/// scale: the inverse of the `15 / 0.3` rescale.
pub open spec fn spec_dequantize_coeff(q: int) -> int {
    q * 80_000_000_000
}

/// Dequantize one five-bit signed coefficient.
pub fn dequantize_coeff(q: i64) -> (s: i64)
    requires
        -16 <= q <= 15,
    ensures
        s as int == spec_dequantize_coeff(q as int),
        -1_280_000_000_000 <= s <= 1_200_000_000_000,
{
    q * 80_000_000_000
}

/// The fixed chroma codebook, in thousandths: sixteen levels, denser near
/// zero where chroma averages cluster.
pub open spec fn chroma_level(i: int) -> int {
    if i == 0 {
        -350
    } else if i == 1 {
        -200
    } else if i == 2 {
        -150
    } else if i == 3 {
        -100
    } else if i == 4 {
        -77
    } else if i == 5 {
        -55
    } else if i == 6 {
        -33
    } else if i == 7 {
        -11
    } else if i == 8 {
        11
    } else if i == 9 {
        33
    } else if i == 10 {
        55
    } else if i == 11 {
        77
    } else if i == 12 {
        100
    } else if i == 13 {
        150
    } else {
        if i == 14 {
            200
        } else {
            350
        }
    }
}

/// One codebook level, in thousandths.
fn chroma_level_of(i: u64) -> (v: i64)
    requires
        i < 16,
    ensures
        v as int == chroma_level(i as int),
{
    if i == 0 {
        -350
    } else if i == 1 {
        -200
    } else if i == 2 {
        -150
    } else if i == 3 {
        -100
    } else if i == 4 {
        -77
    } else if i == 5 {
        -55
    } else if i == 6 {
        -33
    } else if i == 7 {
        -11
    } else if i == 8 {
        11
    } else if i == 9 {
        33
    } else if i == 10 {
        55
    } else if i == 11 {
        77
    } else if i == 12 {
        100
    } else if i == 13 {
        150
    } else if i == 14 {
        200
    } else {
        350
    }
}

/// Distance between a chroma sum (over four times the sample scale) and a
/// codebook level.
pub open spec fn chroma_dist(sum: int, i: int) -> int {
    let delta = sum - chroma_level(i) * 4_000_000_000;
    if delta < 0 {
        -delta
    } else {
        delta
    }
}

/// The index of the codebook entry nearest the chroma sum among the first
/// `n` entries, earlier entries winning ties.
pub open spec fn best_index_upto(sum: int, n: int) -> int
    decreases n,
{
    if n <= 1 {
        0
    } else {
        let prev = best_index_upto(sum, n - 1);
        if chroma_dist(sum, n - 1) < chroma_dist(sum, prev) {
            n - 1
        } else {
            prev
        }
    }
}

/// The quantized chroma average: the index of the nearest codebook entry,
/// earlier entries winning ties.
pub open spec fn spec_index_of_chroma(sum: int) -> int {
    best_index_upto(sum, 16)
}

/// Find the codebook index nearest the chroma sum of one block.
pub fn index_of_chroma(sum: i64) -> (idx: u64)
    requires
        -2_000_000_000_000 <= sum <= 2_000_000_000_000,
    ensures
        idx as int == spec_index_of_chroma(sum as int),
        idx < 16,
{
    let mut best: u64 = 0;
    let mut best_dist: i64 = {
        let delta: i64 = sum - chroma_level_of(0) * 4_000_000_000;
        if delta < 0 {
            -delta
        } else {
            delta
        }
    };
    let mut i: u64 = 1;
    while i < 16
        invariant
            1 <= i <= 16,
            best as int == best_index_upto(sum as int, i as int),
            best < i,
            best_dist as int == chroma_dist(sum as int, best as int),
            -2_000_000_000_000 <= sum <= 2_000_000_000_000,
        decreases 16 - i,
    {
        let delta: i64 = sum - chroma_level_of(i) * 4_000_000_000;
        let dist: i64 = if delta < 0 {
            -delta
        } else {
            delta
        };
        if dist < best_dist {
            best = i;
            best_dist = dist;
        }
        i = i + 1;
    }
    best
}

/// The first-minimum scan really finds a nearest entry: among the first
/// `n` codebook entries, none is closer to the chroma sum than the chosen
/// one, and earlier entries are strictly farther whenever they lost.
proof fn lemma_best_upto_nearest(sum: int, n: int)
    requires
        1 <= n <= 16,
    ensures
        0 <= best_index_upto(sum, n) < n,
        forall|j: int|
            0 <= j < n ==> chroma_dist(sum, best_index_upto(sum, n)) <= #[trigger] chroma_dist(
                sum,
                j,
            ),
    decreases n,
{
    if n > 1 {
        lemma_best_upto_nearest(sum, n - 1);
    }
}

/// The quantized chroma index names a nearest codebook entry: no entry
/// lies closer to the block's chroma sum.
pub proof fn lemma_index_of_chroma_nearest(sum: int)
    ensures
        0 <= spec_index_of_chroma(sum) < 16,
        forall|j: int|
            0 <= j < 16 ==> chroma_dist(sum, spec_index_of_chroma(sum)) <= #[trigger] chroma_dist(
                sum,
                j,
            ),
{
    lemma_best_upto_nearest(sum, 16);
}

/// The dequantized chroma average, at the sample scale: the codebook entry
/// itself.
pub open spec fn spec_chroma_of_index(i: int) -> int {
    chroma_level(i) * 1_000_000_000
}

/// Look one codebook index up, returning the chroma value at the sample
/// scale.
pub fn chroma_of_index(idx: u64) -> (v: i64)
    requires
        idx < 16,
    ensures
        v as int == spec_chroma_of_index(idx as int),
        -350_000_000_000 <= v <= 350_000_000_000,
{
    chroma_level_of(idx) * 1_000_000_000
}

} // verus!
