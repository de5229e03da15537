//! The 2x2 spatial transform: four luma samples become one averaged value
//! and three difference coefficients, and back.
//!
//! The four coefficients are kept as plain sums, that is at four times the
//! sample scale, so the forward direction is exact; the inverse divides by
//! four with rounding, which is exact again whenever the coefficients came
//! from the forward direction.

use crate::numeric::{lemma_round_div_unique, round_div, round_div_i64};
use vstd::prelude::*;

verus! {

/// The coefficients of one 2x2 block, each a sum of four luma samples, so
/// at four times the sample scale: `a` the average, `b`, `c`, `d` the
/// vertical, horizontal and diagonal differences.
#[derive(Clone, Copy, Debug, PartialEq, Eq, Structural)]
pub struct BlockCoeffs {
    pub a: i64,
    pub b: i64,
    pub c: i64,
    pub d: i64,
}

/// Average coefficient, as a sum: `(y1 + y2 + y3 + y4)`.
pub open spec fn spec_coeff_a(y1: int, y2: int, y3: int, y4: int) -> int {
    y1 + y2 + y3 + y4
}

/// Vertical difference, as a sum: `(y4 + y3 - y2 - y1)`.
pub open spec fn spec_coeff_b(y1: int, y2: int, y3: int, y4: int) -> int {
    y4 + y3 - y2 - y1
}

/// Horizontal difference, as a sum: `(y4 - y3 + y2 - y1)`.
pub open spec fn spec_coeff_c(y1: int, y2: int, y3: int, y4: int) -> int {
    y4 - y3 + y2 - y1
}

/// Diagonal difference, as a sum: `(y4 - y3 - y2 + y1)`.
pub open spec fn spec_coeff_d(y1: int, y2: int, y3: int, y4: int) -> int {
    y4 - y3 - y2 + y1
}

/// The luma samples recovered from the coefficient sums: the inverse
/// linear map, divided back down by four with rounding.
pub open spec fn spec_y1(a: int, b: int, c: int, d: int) -> int {
    round_div(a - b - c + d, 4)
}

/// Second sample of the inverse map.
pub open spec fn spec_y2(a: int, b: int, c: int, d: int) -> int {
    round_div(a - b + c - d, 4)
}

/// Third sample of the inverse map.
pub open spec fn spec_y3(a: int, b: int, c: int, d: int) -> int {
    round_div(a + b - c - d, 4)
}

/// Fourth sample of the inverse map.
pub open spec fn spec_y4(a: int, b: int, c: int, d: int) -> int {
    round_div(a + b + c + d, 4)
}

/// Decorrelate the four luma samples of one block, top-left, top-right,
/// bottom-left, bottom-right, into the four coefficient sums.
pub fn forward_block(y1: i64, y2: i64, y3: i64, y4: i64) -> (co: BlockCoeffs)
    requires
        -2_000_000_000_000 <= y1 <= 2_000_000_000_000,
        -2_000_000_000_000 <= y2 <= 2_000_000_000_000,
        -2_000_000_000_000 <= y3 <= 2_000_000_000_000,
        -2_000_000_000_000 <= y4 <= 2_000_000_000_000,
    ensures
        co.a as int == spec_coeff_a(y1 as int, y2 as int, y3 as int, y4 as int),
        co.b as int == spec_coeff_b(y1 as int, y2 as int, y3 as int, y4 as int),
        co.c as int == spec_coeff_c(y1 as int, y2 as int, y3 as int, y4 as int),
        co.d as int == spec_coeff_d(y1 as int, y2 as int, y3 as int, y4 as int),
{
    BlockCoeffs { a: y1 + y2 + y3 + y4, b: y4 + y3 - y2 - y1, c: y4 - y3 + y2 - y1, d: y4 - y3
        - y2 + y1 }
}

/// Recover the four luma samples from the coefficient sums.
pub fn inverse_block(co: &BlockCoeffs) -> (ys: (i64, i64, i64, i64))
    requires
        -8_000_000_000_000 <= co.a <= 8_000_000_000_000,
        -8_000_000_000_000 <= co.b <= 8_000_000_000_000,
        -8_000_000_000_000 <= co.c <= 8_000_000_000_000,
        -8_000_000_000_000 <= co.d <= 8_000_000_000_000,
    ensures
        ys.0 as int == spec_y1(co.a as int, co.b as int, co.c as int, co.d as int),
        ys.1 as int == spec_y2(co.a as int, co.b as int, co.c as int, co.d as int),
        ys.2 as int == spec_y3(co.a as int, co.b as int, co.c as int, co.d as int),
        ys.3 as int == spec_y4(co.a as int, co.b as int, co.c as int, co.d as int),
{
    let y1: i64 = round_div_i64(co.a - co.b - co.c + co.d, 4);
    let y2: i64 = round_div_i64(co.a - co.b + co.c - co.d, 4);
    let y3: i64 = round_div_i64(co.a + co.b - co.c - co.d, 4);
    let y4: i64 = round_div_i64(co.a + co.b + co.c + co.d, 4);
    (y1, y2, y3, y4)
}

/// The block transform inverts exactly: the inverse map applied to the
/// four coefficient sums of any block returns the four luma samples
/// unchanged, because each inverse combination is exactly four times one
/// sample.
pub proof fn lemma_block_round_trip(y1: int, y2: int, y3: int, y4: int)
    ensures
        spec_y1(
            spec_coeff_a(y1, y2, y3, y4),
            spec_coeff_b(y1, y2, y3, y4),
            spec_coeff_c(y1, y2, y3, y4),
            spec_coeff_d(y1, y2, y3, y4),
        ) == y1,
        spec_y2(
            spec_coeff_a(y1, y2, y3, y4),
            spec_coeff_b(y1, y2, y3, y4),
            spec_coeff_c(y1, y2, y3, y4),
            spec_coeff_d(y1, y2, y3, y4),
        ) == y2,
        spec_y3(
            spec_coeff_a(y1, y2, y3, y4),
            spec_coeff_b(y1, y2, y3, y4),
            spec_coeff_c(y1, y2, y3, y4),
            spec_coeff_d(y1, y2, y3, y4),
        ) == y3,
        spec_y4(
            spec_coeff_a(y1, y2, y3, y4),
            spec_coeff_b(y1, y2, y3, y4),
            spec_coeff_c(y1, y2, y3, y4),
            spec_coeff_d(y1, y2, y3, y4),
        ) == y4,
{
    lemma_round_div_unique(4 * y1, 4, y1);
    lemma_round_div_unique(4 * y2, 4, y2);
    lemma_round_div_unique(4 * y3, 4, y3);
    lemma_round_div_unique(4 * y4, 4, y4);
}

} // verus!
