//! Fixed-width bit fields inside a 64-bit word: fits checks, field reads
//! (unsigned and sign-extended) and field writes.
//!
//! A field is named by its width and the position of its least-significant
//! bit (`lsb`).  The one invalid geometry, for reads and writes alike, is
//! `width == 0` or `lsb + width > 64`; reads and writes return `None`
//! exactly there, or when a value to be written does not fit its field.
//!
//! The contracts speak of `field_of` and `signed_field_of`, the
//! mathematical value of a field: writes place a value so that the matching
//! read returns it, and leave every bit outside the field untouched.

use vstd::arithmetic::div_mod::{lemma_basic_div, lemma_div_basics, lemma_mod_bound, lemma_small_mod};
use vstd::arithmetic::power2::{
    lemma2_to64, lemma2_to64_rest, lemma_pow2_adds, lemma_pow2_strictly_increases,
    lemma_pow2_unfold, pow2,
};
use vstd::bits::{
    lemma_u64_low_bits_mask_is_mod, lemma_u64_pow2_no_overflow, lemma_u64_shl_is_mul,
    lemma_u64_shr_is_div,
};
use vstd::prelude::*;

verus! {

/// A field geometry is valid iff the field is non-empty and lies inside the
/// 64-bit word.
pub open spec fn valid_field(width: u64, lsb: u64) -> bool {
    1 <= width && lsb + width <= 64
}

/// The unsigned value of the `width`-bit field of `word` starting at bit
/// `lsb`: the bits are shifted down and the rest of the word is cut away.
pub open spec fn field_of(word: u64, width: u64, lsb: u64) -> int {
    (word as int / pow2(lsb as nat) as int) % pow2(width as nat) as int
}

/// The value of the same field read as a two's-complement number: the
/// field's own most-significant bit decides the sign.
pub open spec fn signed_field_of(word: u64, width: u64, lsb: u64) -> int {
    let u = field_of(word, width, lsb);
    if u >= pow2((width - 1) as nat) {
        u - pow2(width as nat)
    } else {
        u
    }
}

/// An unsigned value fits a field iff the field is non-empty and the value
/// is below `2^width`.
pub open spec fn spec_fits_unsigned(n: u64, width: u64) -> bool {
    width > 0 && (n as int) < pow2(width as nat)
}

/// A signed value fits a field iff the field is non-empty and the value lies
/// in the two's-complement range `[-2^(width-1), 2^(width-1) - 1]`.
pub open spec fn spec_fits_signed(n: i64, width: u64) -> bool {
    width > 0 && -(pow2((width - 1) as nat) as int) <= n as int && (n as int) < pow2(
        (width - 1) as nat,
    ) as int
}

/// Returns true iff the unsigned value `n` fits into `width` unsigned bits.
pub fn fitsu(n: u64, width: u64) -> (r: bool)
    ensures
        r == spec_fits_unsigned(n, width),
{
    if width == 0 {
        false
    } else if width >= 64 {
        proof {
            if width > 64 {
                lemma_pow2_strictly_increases(64, width as nat);
            }
            lemma2_to64_rest();
        }
        true
    } else {
        proof {
            lemma_u64_pow2_no_overflow(width as nat);
            lemma_u64_shl_is_mul(1u64, width);
        }
        n < (1u64 << width)
    }
}

/// For a field inside the word, the half-range bound `2^(width-1)` stays
/// comfortably inside 64 bits.
proof fn lemma_half_range_small(width: u64)
    requires
        1 <= width < 64,
    ensures
        pow2((width - 1) as nat) <= 0x4000_0000_0000_0000,
        pow2(width as nat) <= 0x8000_0000_0000_0000,
{
    lemma2_to64_rest();
    if width - 1 < 62 {
        lemma_pow2_strictly_increases((width - 1) as nat, 62);
    }
    if width < 63 {
        lemma_pow2_strictly_increases(width as nat, 63);
    }
}

/// Returns true iff the signed value `n` fits into `width` signed bits.
pub fn fitss(n: i64, width: u64) -> (r: bool)
    ensures
        r == spec_fits_signed(n, width),
{
    if width == 0 {
        false
    } else if width >= 64 {
        proof {
            if width > 64 {
                lemma_pow2_strictly_increases(63, (width - 1) as nat);
            }
            lemma2_to64_rest();
        }
        true
    } else {
        proof {
            lemma_u64_pow2_no_overflow((width - 1) as nat);
            lemma_u64_shl_is_mul(1u64, (width - 1) as u64);
            lemma_half_range_small(width);
        }
        let half: u64 = 1u64 << (width - 1);
        let max_positive: i64 = (half - 1) as i64;
        let min_negative: i64 = -(half as i64);
        min_negative <= n && n <= max_positive
    }
}

/// Retrieve the unsigned value of the `width`-bit field of `word` starting
/// at bit `lsb`.  Returns `None` exactly when the geometry is invalid.
pub fn getu(word: u64, width: u64, lsb: u64) -> (r: Option<u64>)
    ensures
        r is Some <==> valid_field(width, lsb),
        r is Some ==> r->0 as int == field_of(word, width, lsb),
{
    if width == 0 || width > 64 || lsb > 64 - width {
        None
    } else if width == 64 {
        proof {
            lemma2_to64();
            lemma2_to64_rest();
            lemma_small_mod(word as nat, pow2(64));
            lemma_div_basics(word as int);
        }
        Some(word)
    } else {
        proof {
            lemma_u64_pow2_no_overflow(width as nat);
            lemma_u64_shl_is_mul(1u64, width);
            lemma_u64_shr_is_div(word, lsb);
            lemma_u64_low_bits_mask_is_mod(word >> lsb, width as nat);
        }
        let mask: u64 = (1u64 << width) - 1;
        Some((word >> lsb) & mask)
    }
}

/// Retrieve the value of the same field read as a two's-complement number:
/// the field is sign-extended from its own most-significant bit.  Returns
/// `None` exactly when the geometry is invalid.
pub fn gets(word: u64, width: u64, lsb: u64) -> (r: Option<i64>)
    ensures
        r is Some <==> valid_field(width, lsb),
        r is Some ==> r->0 as int == signed_field_of(word, width, lsb),
{
    if width == 0 || width > 64 || lsb > 64 - width {
        None
    } else if width == 64 {
        proof {
            lemma2_to64();
            lemma2_to64_rest();
            lemma_small_mod(word as nat, pow2(64));
            lemma_div_basics(word as int);
        }
        if word >= 0x8000_0000_0000_0000u64 {
            // The sign bit is set: the word denotes `word - 2^64`.
            let mag: u64 = (u64::MAX - word) + 1;
            if mag == 0x8000_0000_0000_0000u64 {
                Some(i64::MIN)
            } else {
                Some(-(mag as i64))
            }
        } else {
            Some(word as i64)
        }
    } else {
        proof {
            lemma_u64_pow2_no_overflow(width as nat);
            lemma_u64_shl_is_mul(1u64, width);
            lemma_u64_shr_is_div(word, lsb);
            lemma_u64_low_bits_mask_is_mod(word >> lsb, width as nat);
            if width > 1 {
                lemma_u64_pow2_no_overflow((width - 1) as nat);
                lemma_u64_shl_is_mul(1u64, (width - 1) as u64);
            } else {
                lemma2_to64();
            }
            lemma_pow2_strictly_increases((width - 1) as nat, width as nat);
            lemma_half_range_small(width);
        }
        let mask: u64 = (1u64 << width) - 1;
        let value: u64 = (word >> lsb) & mask;
        let half: u64 = if width == 1 { 1 } else { 1u64 << (width - 1) };
        if value >= half {
            // The sign bit is set: the field denotes `value - 2^width`.
            let modulus: u64 = 1u64 << width;
            Some(-((modulus - value) as i64))
        } else {
            Some(value as i64)
        }
    }
}

/// Return `word` with the `width`-bit field starting at bit `lsb` replaced
/// by the unsigned `value`; every bit outside the field keeps its old
/// value.  Returns `None` exactly when the geometry is invalid or the value
/// does not fit the field.
pub fn newu(word: u64, width: u64, lsb: u64, value: u64) -> (r: Option<u64>)
    ensures
        r is Some <==> valid_field(width, lsb) && spec_fits_unsigned(value, width),
        r is Some ==> field_of(r->0, width, lsb) == value as int,
        r is Some ==> bits_above_unchanged(word, r->0, width, lsb),
        r is Some ==> bits_below_unchanged(word, r->0, lsb),
{
    if !fitsu(value, width) || width > 64 || lsb > 64 - width {
        None
    } else if width == 64 {
        proof {
            lemma2_to64();
            lemma2_to64_rest();
            lemma_small_mod(value as nat, pow2(64));
            lemma_basic_div(value as int, pow2(64) as int);
            lemma_basic_div(word as int, pow2(64) as int);
            lemma_mod_bound(value as int, 1);
            lemma_mod_bound(word as int, 1);
            lemma_div_basics(value as int);
        }
        Some(value)
    } else {
        proof {
            lemma_u64_pow2_no_overflow(width as nat);
            lemma_u64_shl_is_mul(1u64, width);
        }
        let mask: u64 = (1u64 << width) - 1;
        let field: u64 = mask << lsb;
        let r: u64 = (word & !field) | ((value << lsb) & field);
        proof {
            lemma_store_effect(word, r, width, lsb, value);
        }
        Some(r)
    }
}

/// Return `word` with the `width`-bit field starting at bit `lsb` replaced
/// by the two's-complement pattern of the signed `value`; every bit outside
/// the field keeps its old value.  Returns `None` exactly when the geometry
/// is invalid or the value does not fit the field.
pub fn news(word: u64, width: u64, lsb: u64, value: i64) -> (r: Option<u64>)
    ensures
        r is Some <==> valid_field(width, lsb) && spec_fits_signed(value, width),
        r is Some ==> signed_field_of(r->0, width, lsb) == value as int,
        r is Some ==> bits_above_unchanged(word, r->0, width, lsb),
        r is Some ==> bits_below_unchanged(word, r->0, lsb),
{
    if !fitss(value, width) || width > 64 || lsb > 64 - width {
        None
    } else if width == 64 {
        // The stored pattern of a negative value is `value + 2^64`.
        let bits: u64 = if value >= 0 {
            value as u64
        } else {
            u64::MAX - ((-(value + 1)) as u64)
        };
        proof {
            lemma2_to64();
            lemma2_to64_rest();
            lemma_small_mod(bits as nat, pow2(64));
            lemma_basic_div(bits as int, pow2(64) as int);
            lemma_basic_div(word as int, pow2(64) as int);
            lemma_mod_bound(bits as int, 1);
            lemma_mod_bound(word as int, 1);
            lemma_div_basics(bits as int);
        }
        Some(bits)
    } else {
        proof {
            lemma_u64_pow2_no_overflow(width as nat);
            lemma_u64_shl_is_mul(1u64, width);
            if width > 1 {
                lemma_u64_pow2_no_overflow((width - 1) as nat);
                lemma_u64_shl_is_mul(1u64, (width - 1) as u64);
            } else {
                lemma2_to64();
            }
            lemma_pow2_strictly_increases((width - 1) as nat, width as nat);
            lemma_half_range_small(width);
            lemma_pow2_unfold(width as nat);
        }
        let modulus: u64 = 1u64 << width;
        // The stored pattern of a negative value is `value + 2^width`.
        let bits: u64 = if value >= 0 {
            value as u64
        } else {
            modulus - ((-value) as u64)
        };
        let mask: u64 = modulus - 1;
        let field: u64 = mask << lsb;
        let r: u64 = (word & !field) | ((bits << lsb) & field);
        proof {
            lemma_store_effect(word, r, width, lsb, bits);
            lemma_pow2_unfold(width as nat);
        }
        Some(r)
    }
}

/// The bits of `after` above the field (`lsb + width` and up) agree with
/// those of `before`.
pub open spec fn bits_above_unchanged(before: u64, after: u64, width: u64, lsb: u64) -> bool {
    after as int / pow2((lsb + width) as nat) as int == before as int / pow2(
        (lsb + width) as nat,
    ) as int
}

/// The bits of `after` below the field (below `lsb`) agree with those of
/// `before`.
pub open spec fn bits_below_unchanged(before: u64, after: u64, lsb: u64) -> bool {
    after as int % pow2(lsb as nat) as int == before as int % pow2(lsb as nat) as int
}

/// A word splits into the bits above a field, the field, and the bits
/// below it.
pub proof fn lemma_field_decomposition(word: u64, width: u64, lsb: u64)
    requires
        valid_field(width, lsb),
    ensures
        word as int == pow2((lsb + width) as nat) * (word as int / pow2(
            (lsb + width) as nat,
        ) as int) + pow2(lsb as nat) * field_of(word, width, lsb) + word as int % pow2(
            lsb as nat,
        ) as int,
{
    let pl = pow2(lsb as nat) as int;
    let pw = pow2(width as nat) as int;
    let plw = pow2((lsb + width) as nat) as int;
    lemma_pow2_adds(lsb as nat, width as nat);
    vstd::arithmetic::power2::lemma_pow2_pos(lsb as nat);
    vstd::arithmetic::power2::lemma_pow2_pos(width as nat);
    vstd::arithmetic::div_mod::lemma_fundamental_div_mod(word as int, pl);
    vstd::arithmetic::div_mod::lemma_fundamental_div_mod(word as int / pl, pw);
    vstd::arithmetic::div_mod::lemma_div_denominator(word as int, pl, pw);
    assert(pl * (pw * (word as int / plw) + field_of(word, width, lsb)) == (pl * pw) * (word
        as int / plw) + pl * field_of(word, width, lsb)) by (nonlinear_arith);
}

/// The write contract pins the result completely: two words that hold the
/// same field value and agree on every bit outside the field are the same
/// word.
pub proof fn lemma_store_unique(w1: u64, w2: u64, width: u64, lsb: u64)
    requires
        valid_field(width, lsb),
        field_of(w1, width, lsb) == field_of(w2, width, lsb),
        bits_above_unchanged(w1, w2, width, lsb),
        bits_below_unchanged(w1, w2, lsb),
    ensures
        w1 == w2,
{
    lemma_field_decomposition(w1, width, lsb);
    lemma_field_decomposition(w2, width, lsb);
}

/// A field read stays inside its width: unsigned in `[0, 2^width)`,
/// sign-extended in `[-2^(width-1), 2^(width-1))`.
pub proof fn lemma_field_range(word: u64, width: u64, lsb: u64)
    requires
        valid_field(width, lsb),
    ensures
        0 <= field_of(word, width, lsb) < pow2(width as nat),
        -(pow2((width - 1) as nat) as int) <= signed_field_of(word, width, lsb),
        signed_field_of(word, width, lsb) < pow2((width - 1) as nat),
{
    vstd::arithmetic::power2::lemma_pow2_pos(lsb as nat);
    vstd::arithmetic::power2::lemma_pow2_pos(width as nat);
    vstd::arithmetic::power2::lemma_pow2_pos((width - 1) as nat);
    lemma_mod_bound(word as int / pow2(lsb as nat) as int, pow2(width as nat) as int);
    lemma_pow2_unfold(width as nat);
}

/// Writing a field above every occupied bit of a word adds the shifted
/// value: the word grows from low fields to high ones, so a codeword built
/// by successive writes is the plain sum of its shifted fields.
pub proof fn lemma_store_adds(wold: u64, wnew: u64, width: u64, lsb: u64, v: int)
    requires
        valid_field(width, lsb),
        (wold as int) < pow2(lsb as nat),
        0 <= v < pow2(width as nat),
        field_of(wnew, width, lsb) == v,
        bits_above_unchanged(wold, wnew, width, lsb),
        bits_below_unchanged(wold, wnew, lsb),
    ensures
        wnew as int == wold as int + v * pow2(lsb as nat),
        (wnew as int) < pow2((lsb + width) as nat),
{
    let pl = pow2(lsb as nat) as int;
    let pw = pow2(width as nat) as int;
    let plw = pow2((lsb + width) as nat) as int;
    lemma_pow2_adds(lsb as nat, width as nat);
    vstd::arithmetic::power2::lemma_pow2_pos(lsb as nat);
    vstd::arithmetic::power2::lemma_pow2_pos(width as nat);
    lemma_pow2_strictly_increases(lsb as nat, (lsb + width) as nat);
    lemma_basic_div(wold as int, plw);
    vstd::arithmetic::div_mod::lemma_small_div_converse(wnew as int, plw);
    lemma_small_mod(wold as nat, pow2(lsb as nat));
    vstd::arithmetic::div_mod::lemma_multiply_divide_lt(wnew as int, pl, pw);
    lemma_small_mod((wnew as int / pl) as nat, pow2(width as nat));
    vstd::arithmetic::div_mod::lemma_fundamental_div_mod(wnew as int, pl);
}

/// Effect of the mask-and-or store on the three regions of the word: the
/// field takes the new value, the bits above and below keep their old ones.
proof fn lemma_store_effect(word: u64, r: u64, width: u64, lsb: u64, value: u64)
    requires
        1 <= width < 64,
        lsb + width <= 64,
        value < pow2(width as nat),
        ({
            let mask = (pow2(width as nat) - 1) as u64;
            r == (word & !(mask << lsb)) | ((value << lsb) & (mask << lsb))
        }),
    ensures
        field_of(r, width, lsb) == value as int,
        bits_above_unchanged(word, r, width, lsb),
        bits_below_unchanged(word, r, lsb),
{
    lemma_u64_pow2_no_overflow(width as nat);
    lemma_u64_shl_is_mul(1u64, width);
    let mask = (pow2(width as nat) - 1) as u64;

    // The field region of `r` holds exactly `value`.
    assert(((r >> lsb) & mask) == value) by (bit_vector)
        requires
            1 <= width < 64,
            lsb + width <= 64,
            value < (1u64 << width),
            mask + 1 == (1u64 << width),
            r == (word & !(mask << lsb)) | ((value << lsb) & (mask << lsb)),
    ;
    lemma_u64_shr_is_div(r, lsb);
    lemma_u64_low_bits_mask_is_mod(r >> lsb, width as nat);

    // The bits above the field are untouched.
    let above: u64 = (lsb + width) as u64;
    if above < 64 {
        assert((r >> above) == (word >> above)) by (bit_vector)
            requires
                1 <= width < 64,
                lsb + width < 64,
                above == lsb + width,
                value < (1u64 << width),
                mask + 1 == (1u64 << width),
                r == (word & !(mask << lsb)) | ((value << lsb) & (mask << lsb)),
        ;
        lemma_u64_shr_is_div(r, above);
        lemma_u64_shr_is_div(word, above);
    } else {
        lemma2_to64_rest();
        lemma_basic_div(r as int, pow2(64) as int);
        lemma_basic_div(word as int, pow2(64) as int);
    }

    // The bits below the field are untouched.
    if lsb > 0 {
        lemma_u64_pow2_no_overflow(lsb as nat);
        lemma_u64_shl_is_mul(1u64, lsb);
        let low: u64 = (pow2(lsb as nat) - 1) as u64;
        assert((r & low) == (word & low)) by (bit_vector)
            requires
                1 <= width < 64,
                lsb + width <= 64,
                0 < lsb,
                low + 1 == (1u64 << lsb),
                mask + 1 == (1u64 << width),
                r == (word & !(mask << lsb)) | ((value << lsb) & (mask << lsb)),
        ;
        lemma_u64_low_bits_mask_is_mod(r, lsb as nat);
        lemma_u64_low_bits_mask_is_mod(word, lsb as nat);
    } else {
        lemma2_to64();
        assert(r as int % 1 == word as int % 1);
    }
}

} // verus!
