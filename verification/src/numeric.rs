//! Rounding division on scaled integers.
//!
//! The codec keeps every sample as an integer numerator over a fixed power
//! of ten, so each lossy step is one rounding division: divide and round to
//! the nearest integer, halves away from zero.

use vstd::arithmetic::div_mod::{
    lemma_fundamental_div_mod, lemma_fundamental_div_mod_converse, lemma_mod_bound,
};
use vstd::prelude::*;

verus! {

/// `a / b` rounded to the nearest integer, halves away from zero.
pub open spec fn round_div(a: int, b: int) -> int
    recommends
        b > 0,
{
    if a >= 0 {
        (2 * a + b) / (2 * b)
    } else {
        -((2 * -a + b) / (2 * b))
    }
}

/// Rounding division lands on `k` whenever `a/b` lies strictly within half
/// a unit of `k`.
pub proof fn lemma_round_div_unique(a: int, b: int, k: int)
    requires
        b > 0,
        2 * (a - k * b) < b,
        -b < 2 * (a - k * b),
    ensures
        round_div(a, b) == k,
{
    if a >= 0 {
        assert(2 * a + b == k * (2 * b) + (2 * (a - k * b) + b)) by (nonlinear_arith);
        lemma_fundamental_div_mod_converse(2 * a + b, 2 * b, k, 2 * (a - k * b) + b);
    } else {
        assert(2 * -a + b == (-k) * (2 * b) + (b - 2 * (a - k * b))) by (nonlinear_arith);
        lemma_fundamental_div_mod_converse(2 * -a + b, 2 * b, -k, b - 2 * (a - k * b));
    }
}

/// Rounding division is off from the exact quotient by at most half a unit
/// of the divisor.
pub proof fn lemma_round_div_error(a: int, b: int)
    requires
        b > 0,
    ensures
        2 * (a - round_div(a, b) * b) <= b,
        -b <= 2 * (a - round_div(a, b) * b),
{
    if a >= 0 {
        lemma_fundamental_div_mod(2 * a + b, 2 * b);
        lemma_mod_bound(2 * a + b, 2 * b);
        assert(2 * (a - ((2 * a + b) / (2 * b)) * b) == (2 * a + b) % (2 * b) - b)
            by (nonlinear_arith)
            requires
                2 * a + b == (2 * b) * ((2 * a + b) / (2 * b)) + (2 * a + b) % (2 * b),
        ;
    } else {
        lemma_fundamental_div_mod(2 * -a + b, 2 * b);
        lemma_mod_bound(2 * -a + b, 2 * b);
        assert(2 * (a - (-((2 * -a + b) / (2 * b))) * b) == b - (2 * -a + b) % (2 * b))
            by (nonlinear_arith)
            requires
                2 * -a + b == (2 * b) * ((2 * -a + b) / (2 * b)) + (2 * -a + b) % (2 * b),
        ;
    }
}

/// Rounding division, on 64-bit operands.  The bounds keep `2*a + b` inside
/// the machine range; the divisions themselves run on non-negative numbers.
pub fn round_div_i64(a: i64, b: i64) -> (q: i64)
    requires
        1 <= b <= 0x2000_0000_0000_0000,
        -0x2000_0000_0000_0000 <= a <= 0x2000_0000_0000_0000,
    ensures
        q as int == round_div(a as int, b as int),
{
    if a >= 0 {
        let num: u64 = (2 * a + b) as u64;
        let den: u64 = (2 * b) as u64;
        let q: u64 = num / den;
        proof {
            vstd::arithmetic::div_mod::lemma_div_is_ordered_by_denominator(num as int, 1, den as int);
            vstd::arithmetic::div_mod::lemma_div_basics(num as int);
        }
        q as i64
    } else {
        let num: u64 = (2 * -a + b) as u64;
        let den: u64 = (2 * b) as u64;
        let q: u64 = num / den;
        proof {
            vstd::arithmetic::div_mod::lemma_div_is_ordered_by_denominator(num as int, 1, den as int);
            vstd::arithmetic::div_mod::lemma_div_basics(num as int);
        }
        -(q as i64)
    }
}

/// Rounding division, on 128-bit operands, for the places where a scaled
/// product outgrows 64 bits.
pub fn round_div_i128(a: i128, b: i128) -> (q: i128)
    requires
        1 <= b <= 0x2000_0000_0000_0000_0000_0000_0000_0000,
        -0x2000_0000_0000_0000_0000_0000_0000_0000 <= a,
        a <= 0x2000_0000_0000_0000_0000_0000_0000_0000,
    ensures
        q as int == round_div(a as int, b as int),
{
    if a >= 0 {
        let num: u128 = (2 * a + b) as u128;
        let den: u128 = (2 * b) as u128;
        let q: u128 = num / den;
        proof {
            vstd::arithmetic::div_mod::lemma_div_is_ordered_by_denominator(num as int, 1, den as int);
            vstd::arithmetic::div_mod::lemma_div_basics(num as int);
        }
        q as i128
    } else {
        let num: u128 = (2 * -a + b) as u128;
        let den: u128 = (2 * b) as u128;
        let q: u128 = num / den;
        proof {
            vstd::arithmetic::div_mod::lemma_div_is_ordered_by_denominator(num as int, 1, den as int);
            vstd::arithmetic::div_mod::lemma_div_basics(num as int);
        }
        -(q as i128)
    }
}

} // verus!
