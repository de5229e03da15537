//! The codec itself: 2x2 blocks of luma/chroma samples become 32-bit
//! codewords and back.
//!
//! One codeword holds six fields: the quantized averaged luma in nine
//! unsigned bits at bit 23, the three quantized difference coefficients in
//! five signed bits each at bits 18, 13 and 8, and the two chroma codebook
//! indices in four bits each at bits 4 and 0.  Blocks are visited in
//! row-major block order; codewords are independent of one another.

use crate::bitpack::{
    field_of, getu, gets, lemma_field_range, lemma_store_adds, newu, news, signed_field_of,
};
use crate::blocks::{
    forward_block, inverse_block, spec_coeff_a, spec_coeff_b, spec_coeff_c, spec_coeff_d,
    spec_y1, spec_y2, spec_y3, spec_y4, BlockCoeffs,
};
use crate::color::{
    chroma_to_rgb, inv_channel, pixel_wf, rgb_to_chroma, sample_wf, spec_inv_blue,
    spec_inv_green, spec_inv_red, spec_luma, spec_pb, spec_pr, ChromaSample, Pixel,
};
use crate::numeric::lemma_round_div_error;
use crate::quantize::{
    chroma_of_index, dequantize_coeff, dequantize_luma, index_of_chroma, quantize_coeff,
    quantize_luma, spec_chroma_of_index, spec_dequantize_coeff, spec_dequantize_luma,
    spec_index_of_chroma, spec_quantize_coeff, spec_quantize_luma,
};
use vstd::arithmetic::div_mod::{
    lemma_fundamental_div_mod, lemma_fundamental_div_mod_converse, lemma_mod_bound,
    lemma_multiply_divide_lt,
};
use vstd::arithmetic::power2::{lemma2_to64, lemma2_to64_rest};
use vstd::prelude::*;

verus! {

/// The one fatal error of the codec: a buffer length that does not match
/// the stated dimensions, or a codeword count that does not match the
/// block count.  Packing itself cannot fail: the quantizer's clamps are
/// proved to keep every value inside its field.
#[derive(Clone, Copy, Debug, PartialEq, Eq, Structural)]
pub enum CodecError {
    Dimension,
}

/// A sample the encoder accepts: luma inside `[0, 1]`, chroma inside
/// `[-1/2, 1/2]`, at the sample scale.  The colour transform produces
/// exactly such samples.
pub open spec fn encode_wf(s: ChromaSample) -> bool {
    0 <= s.y <= 1_000_000_000_000 && -500_000_000_000 <= s.pb <= 500_000_000_000
        && -500_000_000_000 <= s.pr <= 500_000_000_000
}

/// The five-bit two's-complement pattern of a quantized coefficient.
pub open spec fn twos5(q: int) -> int {
    if q < 0 {
        q + 32
    } else {
        q
    }
}

/// The codeword as a sum of its shifted fields: `a` at bit 23, `b`, `c`,
/// `d` at bits 18, 13 and 8, the chroma indices at bits 4 and 0.
pub open spec fn spec_codeword(aq: int, bq: int, cq: int, dq: int, pbi: int, pri: int) -> int {
    aq * 0x80_0000 + twos5(bq) * 0x4_0000 + twos5(cq) * 0x2000 + twos5(dq) * 0x100 + pbi * 0x10
        + pri
}

/// The codeword of one block, from the four luma samples in raster order
/// and the block's two chroma sums.
pub open spec fn spec_pack_block(
    y1: int,
    y2: int,
    y3: int,
    y4: int,
    pb_sum: int,
    pr_sum: int,
) -> int {
    spec_codeword(
        spec_quantize_luma(spec_coeff_a(y1, y2, y3, y4)),
        spec_quantize_coeff(spec_coeff_b(y1, y2, y3, y4)),
        spec_quantize_coeff(spec_coeff_c(y1, y2, y3, y4)),
        spec_quantize_coeff(spec_coeff_d(y1, y2, y3, y4)),
        spec_index_of_chroma(pb_sum),
        spec_index_of_chroma(pr_sum),
    )
}

/// Pack one block: decorrelate the four luma samples, quantize the
/// coefficients and the two chroma averages, and write the six fields of
/// the codeword.  The quantizer's ranges are proved to fit the fields, so
/// packing always succeeds.
pub fn pack_values(
    tl: &ChromaSample,
    tr: &ChromaSample,
    bl: &ChromaSample,
    br: &ChromaSample,
) -> (w: u32)
    requires
        encode_wf(*tl),
        encode_wf(*tr),
        encode_wf(*bl),
        encode_wf(*br),
    ensures
        w as int == spec_pack_block(
            tl.y as int,
            tr.y as int,
            bl.y as int,
            br.y as int,
            tl.pb as int + tr.pb as int + bl.pb as int + br.pb as int,
            tl.pr as int + tr.pr as int + bl.pr as int + br.pr as int,
        ),
{
    let co: BlockCoeffs = forward_block(tl.y, tr.y, bl.y, br.y);
    let aq: u64 = quantize_luma(co.a);
    let bq: i64 = quantize_coeff(co.b);
    let cq: i64 = quantize_coeff(co.c);
    let dq: i64 = quantize_coeff(co.d);
    let pb_sum: i64 = tl.pb + tr.pb + bl.pb + br.pb;
    let pr_sum: i64 = tl.pr + tr.pr + bl.pr + br.pr;
    let pbi: u64 = index_of_chroma(pb_sum);
    let pri: u64 = index_of_chroma(pr_sum);
    proof {
        lemma2_to64();
        lemma2_to64_rest();
    }
    let w1: u64 = newu(0, 4, 0, pri).unwrap();
    proof {
        lemma_store_adds(0, w1, 4, 0, pri as int);
    }
    let w2: u64 = newu(w1, 4, 4, pbi).unwrap();
    proof {
        lemma_store_adds(w1, w2, 4, 4, pbi as int);
    }
    let w3: u64 = news(w2, 5, 8, dq).unwrap();
    proof {
        lemma_field_range(w3, 5, 8);
        lemma_store_adds(w2, w3, 5, 8, twos5(dq as int));
    }
    let w4: u64 = news(w3, 5, 13, cq).unwrap();
    proof {
        lemma_field_range(w4, 5, 13);
        lemma_store_adds(w3, w4, 5, 13, twos5(cq as int));
    }
    let w5: u64 = news(w4, 5, 18, bq).unwrap();
    proof {
        lemma_field_range(w5, 5, 18);
        lemma_store_adds(w4, w5, 5, 18, twos5(bq as int));
    }
    let w6: u64 = newu(w5, 9, 23, aq).unwrap();
    proof {
        lemma_store_adds(w5, w6, 9, 23, aq as int);
    }
    w6 as u32
}

/// The quantized averaged luma held by a codeword.
pub open spec fn spec_aq(w: u32) -> int {
    field_of(w as u64, 9, 23)
}

/// The quantized vertical difference held by a codeword.
pub open spec fn spec_bq(w: u32) -> int {
    signed_field_of(w as u64, 5, 18)
}

/// The quantized horizontal difference held by a codeword.
pub open spec fn spec_cq(w: u32) -> int {
    signed_field_of(w as u64, 5, 13)
}

/// The quantized diagonal difference held by a codeword.
pub open spec fn spec_dq(w: u32) -> int {
    signed_field_of(w as u64, 5, 8)
}

/// The blue-chroma codebook index held by a codeword.
pub open spec fn spec_pbi(w: u32) -> int {
    field_of(w as u64, 4, 4)
}

/// The red-chroma codebook index held by a codeword.
pub open spec fn spec_pri(w: u32) -> int {
    field_of(w as u64, 4, 0)
}

/// The first (top-left) luma sample decoded from a codeword.
pub open spec fn spec_unpack_y(w: u32, corner: int) -> int {
    let a = spec_dequantize_luma(spec_aq(w));
    let b = spec_dequantize_coeff(spec_bq(w));
    let c = spec_dequantize_coeff(spec_cq(w));
    let d = spec_dequantize_coeff(spec_dq(w));
    if corner == 0 {
        spec_y1(a, b, c, d)
    } else if corner == 1 {
        spec_y2(a, b, c, d)
    } else if corner == 2 {
        spec_y3(a, b, c, d)
    } else {
        spec_y4(a, b, c, d)
    }
}

/// The blue chroma average decoded from a codeword.
pub open spec fn spec_unpack_pb(w: u32) -> int {
    spec_chroma_of_index(spec_pbi(w))
}

/// The red chroma average decoded from a codeword.
pub open spec fn spec_unpack_pr(w: u32) -> int {
    spec_chroma_of_index(spec_pri(w))
}

/// Unpack one codeword into the four samples of its block, in raster
/// order: dequantize the four coefficients, invert the block transform,
/// and attach the block's two dequantized chroma averages to all four.
pub fn unpack_values(word: u32) -> (r: (ChromaSample, ChromaSample, ChromaSample, ChromaSample))
    ensures
        r.0.y as int == spec_unpack_y(word, 0),
        r.1.y as int == spec_unpack_y(word, 1),
        r.2.y as int == spec_unpack_y(word, 2),
        r.3.y as int == spec_unpack_y(word, 3),
        r.0.pb as int == spec_unpack_pb(word) && r.0.pr as int == spec_unpack_pr(word),
        r.1.pb == r.0.pb && r.1.pr == r.0.pr,
        r.2.pb == r.0.pb && r.2.pr == r.0.pr,
        r.3.pb == r.0.pb && r.3.pr == r.0.pr,
        sample_wf(r.0) && sample_wf(r.1) && sample_wf(r.2) && sample_wf(r.3),
{
    let w: u64 = word as u64;
    proof {
        lemma2_to64();
        lemma_field_range(w, 9, 23);
        lemma_field_range(w, 5, 18);
        lemma_field_range(w, 5, 13);
        lemma_field_range(w, 5, 8);
        lemma_field_range(w, 4, 4);
        lemma_field_range(w, 4, 0);
    }
    let aq: u64 = getu(w, 9, 23).unwrap();
    let bq: i64 = gets(w, 5, 18).unwrap();
    let cq: i64 = gets(w, 5, 13).unwrap();
    let dq: i64 = gets(w, 5, 8).unwrap();
    let pbi: u64 = getu(w, 4, 4).unwrap();
    let pri: u64 = getu(w, 4, 0).unwrap();
    let co: BlockCoeffs = BlockCoeffs {
        a: dequantize_luma(aq),
        b: dequantize_coeff(bq),
        c: dequantize_coeff(cq),
        d: dequantize_coeff(dq),
    };
    let ys: (i64, i64, i64, i64) = inverse_block(&co);
    proof {
        lemma_round_div_error(co.a as int - co.b + co.c - co.d, 4);
        lemma_round_div_error(co.a as int - co.b - co.c + co.d, 4);
        lemma_round_div_error(co.a as int + co.b - co.c - co.d, 4);
        lemma_round_div_error(co.a as int + co.b + co.c + co.d, 4);
    }
    let pb: i64 = chroma_of_index(pbi);
    let pr: i64 = chroma_of_index(pri);
    (
        ChromaSample { y: ys.0, pb, pr },
        ChromaSample { y: ys.1, pb, pr },
        ChromaSample { y: ys.2, pb, pr },
        ChromaSample { y: ys.3, pb, pr },
    )
}

/// Blocks in the whole image.
pub open spec fn block_count(width: int, height: int) -> int {
    (width / 2) * (height / 2)
}

/// The raster index of the top-left pixel of block `k`.
pub open spec fn block_origin(width: int, k: int) -> int {
    2 * (k / (width / 2)) * width + 2 * (k % (width / 2))
}

/// The block that pixel `i` belongs to.
pub open spec fn block_of(width: int, i: int) -> int {
    ((i / width) / 2) * (width / 2) + (i % width) / 2
}

/// The corner of its block that pixel `i` occupies, in raster order.
pub open spec fn corner_of(width: int, i: int) -> int {
    2 * ((i / width) % 2) + (i % width) % 2
}

/// While any block is left, both dimensions are positive and the image
/// holds at least one whole block.
proof fn lemma_loop_dims(width: int, height: int, k: int)
    requires
        width >= 0,
        height >= 0,
        width % 2 == 0,
        height % 2 == 0,
        0 <= k < block_count(width, height),
    ensures
        width > 0,
        height > 0,
        width / 2 >= 1,
        height / 2 >= 1,
{
    lemma_fundamental_div_mod(width, 2);
    lemma_fundamental_div_mod(height, 2);
    vstd::arithmetic::div_mod::lemma_div_pos_is_pos(width, 2);
    vstd::arithmetic::div_mod::lemma_div_pos_is_pos(height, 2);
    let k1 = width / 2;
    let k2 = height / 2;
    assert(k1 >= 1 && k2 >= 1) by (nonlinear_arith)
        requires
            0 <= k < k1 * k2,
            k1 >= 0,
            k2 >= 0,
    ;
}

/// Half of each dimension, multiplied, stays inside the pixel count.
proof fn lemma_half_dims(width: int, height: int)
    requires
        width >= 0,
        height >= 0,
    ensures
        0 <= (width / 2) * (height / 2) <= width * height,
        width / 2 <= width,
        height / 2 <= height,
{
    lemma_fundamental_div_mod(width, 2);
    lemma_mod_bound(width, 2);
    lemma_fundamental_div_mod(height, 2);
    lemma_mod_bound(height, 2);
    vstd::arithmetic::div_mod::lemma_div_pos_is_pos(width, 2);
    vstd::arithmetic::div_mod::lemma_div_pos_is_pos(height, 2);
    let k1 = width / 2;
    let k2 = height / 2;
    assert(0 <= k1 * k2 <= width * height) by (nonlinear_arith)
        requires
            0 <= k1 <= width,
            0 <= k2 <= height,
    ;
}

/// Each corner of a block lies inside the image, and the block and corner
/// maps take it back to where it came from.
proof fn lemma_block_corner(width: int, height: int, k: int, dr: int, dc: int)
    requires
        width > 0,
        height > 0,
        width % 2 == 0,
        height % 2 == 0,
        0 <= k < block_count(width, height),
        0 <= dr <= 1,
        0 <= dc <= 1,
    ensures
        ({
            let i = block_origin(width, k) + dr * width + dc;
            0 <= i < width * height && block_of(width, i) == k && corner_of(width, i) == 2 * dr
                + dc && i / width == 2 * (k / (width / 2)) + dr && i % width == 2 * (k % (width
                / 2)) + dc
        }),
{
    let bpr = width / 2;
    let kq = k / bpr;
    let kr = k % bpr;
    let r = 2 * kq + dr;
    let c = 2 * kr + dc;
    lemma_fundamental_div_mod(width, 2);
    lemma_fundamental_div_mod(height, 2);
    lemma_mod_bound(k, bpr);
    lemma_multiply_divide_lt(k, bpr, height / 2);
    vstd::arithmetic::div_mod::lemma_div_pos_is_pos(k, bpr);
    assert(2 * kq * width + 2 * kr + dr * width + dc == r * width + c) by (nonlinear_arith)
        requires
            r == 2 * kq + dr,
            c == 2 * kr + dc,
    ;
    lemma_fundamental_div_mod_converse(r * width + c, width, r, c);
    lemma_fundamental_div_mod_converse(r, 2, kq, dr);
    lemma_fundamental_div_mod_converse(c, 2, kr, dc);
    lemma_fundamental_div_mod(k, bpr);
    assert(r * width + c < width * height) by (nonlinear_arith)
        requires
            width > 0,
            r <= height - 1,
            0 <= c < width,
            0 <= r,
    ;
}

/// Every pixel of the image lies in a block of the image, at the corner
/// the coordinate parities give.
proof fn lemma_pixel_in_block(width: int, height: int, i: int)
    requires
        width > 0,
        height > 0,
        width % 2 == 0,
        height % 2 == 0,
        0 <= i < width * height,
    ensures
        0 <= block_of(width, i) < block_count(width, height),
        i == block_origin(width, block_of(width, i)) + ((i / width) % 2) * width + (i % width)
            % 2,
        0 <= (i / width) % 2 <= 1,
        0 <= (i % width) % 2 <= 1,
{
    let r = i / width;
    let c = i % width;
    let bpr = width / 2;
    let rq = r / 2;
    let rr = r % 2;
    let cq = c / 2;
    let cr = c % 2;
    let hq = height / 2;
    lemma_fundamental_div_mod(i, width);
    lemma_mod_bound(i, width);
    lemma_multiply_divide_lt(i, width, height);
    vstd::arithmetic::div_mod::lemma_div_pos_is_pos(i, width);
    lemma_fundamental_div_mod(r, 2);
    lemma_mod_bound(r, 2);
    lemma_fundamental_div_mod(c, 2);
    lemma_mod_bound(c, 2);
    lemma_fundamental_div_mod(width, 2);
    lemma_fundamental_div_mod(height, 2);
    // the block index decomposes as row-of-blocks times blocks-per-row
    assert(0 <= cq < bpr);
    assert(0 <= rq <= hq - 1);
    lemma_fundamental_div_mod_converse(block_of(width, i), bpr, rq, cq);
    assert(rq * bpr + cq < bpr * hq && rq * bpr >= 0) by (nonlinear_arith)
        requires
            0 <= rq <= hq - 1,
            0 <= cq < bpr,
    ;
    // the block's origin plus the parity offsets is the pixel itself
    assert(width * r + c == 2 * rq * width + 2 * cq + rr * width + cr) by (nonlinear_arith)
        requires
            r == 2 * rq + rr,
            c == 2 * cq + cr,
    ;
    assert(block_of(width, i) == rq * bpr + cq);
    assert(block_origin(width, block_of(width, i)) == 2 * (block_of(width, i) / bpr) * width + 2
        * (block_of(width, i) % bpr));
}

/// The codeword of block `k` of a sample buffer.
pub open spec fn spec_block_word(samples: Seq<ChromaSample>, width: int, k: int) -> int {
    let o = block_origin(width, k);
    spec_pack_block(
        samples[o].y as int,
        samples[o + 1].y as int,
        samples[o + width].y as int,
        samples[o + width + 1].y as int,
        samples[o].pb as int + samples[o + 1].pb as int + samples[o + width].pb as int + samples[o
            + width + 1].pb as int,
        samples[o].pr as int + samples[o + 1].pr as int + samples[o + width].pr as int + samples[o
            + width + 1].pr as int,
    )
}

/// Pack every 2x2 block of a sample buffer into its codeword, in row-major
/// block order.
pub fn process_blocks(samples: &Vec<ChromaSample>, width: usize, height: usize) -> (words: Vec<
    u32,
>)
    requires
        width % 2 == 0,
        height % 2 == 0,
        samples@.len() == width * height,
        forall|i: int| 0 <= i < samples@.len() ==> encode_wf(#[trigger] samples@[i]),
    ensures
        words@.len() == block_count(width as int, height as int),
        forall|k: int|
            0 <= k < words@.len() ==> #[trigger] words@[k] as int == spec_block_word(
                samples@,
                width as int,
                k,
            ),
{
    let bpr: usize = width / 2;
    let bpc: usize = height / 2;
    let n: usize = samples.len();
    proof {
        lemma_half_dims(width as int, height as int);
    }
    let nblocks: usize = bpr * bpc;
    let mut words: Vec<u32> = Vec::new();
    let mut k: usize = 0;
    while k < nblocks
        invariant
            0 <= k <= nblocks,
            nblocks == block_count(width as int, height as int),
            bpr == width as int / 2,
            width % 2 == 0,
            height % 2 == 0,
            samples@.len() == width * height,
            width * height <= usize::MAX,
            forall|i: int| 0 <= i < samples@.len() ==> encode_wf(#[trigger] samples@[i]),
            words@.len() == k,
            forall|j: int|
                0 <= j < k ==> #[trigger] words@[j] as int == spec_block_word(
                    samples@,
                    width as int,
                    j,
                ),
        decreases nblocks - k,
    {
        proof {
            lemma_loop_dims(width as int, height as int, k as int);
            lemma_mod_bound(k as int, width as int / 2);
            vstd::arithmetic::div_mod::lemma_div_pos_is_pos(k as int, width as int / 2);
            vstd::arithmetic::div_mod::lemma_div_is_ordered_by_denominator(
                k as int,
                1,
                width as int / 2,
            );
            vstd::arithmetic::div_mod::lemma_div_basics(k as int);
            lemma_block_corner(width as int, height as int, k as int, 0, 0);
            lemma_block_corner(width as int, height as int, k as int, 0, 1);
            lemma_block_corner(width as int, height as int, k as int, 1, 0);
            lemma_block_corner(width as int, height as int, k as int, 1, 1);
        }
        let o: usize = 2 * (k / bpr) * width + 2 * (k % bpr);
        let word: u32 = pack_values(&samples[o], &samples[o + 1], &samples[o + width], &samples[o
            + width + 1]);
        words.push(word);
        k = k + 1;
    }
    words
}

/// The luma sample that a codeword stream gives pixel `i`.
pub open spec fn spec_sample_y(words: Seq<u32>, width: int, i: int) -> int {
    spec_unpack_y(words[block_of(width, i)], corner_of(width, i))
}

/// The blue chroma that a codeword stream gives pixel `i`.
pub open spec fn spec_sample_pb(words: Seq<u32>, width: int, i: int) -> int {
    spec_unpack_pb(words[block_of(width, i)])
}

/// The red chroma that a codeword stream gives pixel `i`.
pub open spec fn spec_sample_pr(words: Seq<u32>, width: int, i: int) -> int {
    spec_unpack_pr(words[block_of(width, i)])
}

/// Unpack a codeword stream into the sample buffer it encodes: each block
/// writes its four corners, in row-major block order.
pub fn reconstruct_blocks(words: &Vec<u32>, width: usize, height: usize) -> (out: Vec<
    ChromaSample,
>)
    requires
        width % 2 == 0,
        height % 2 == 0,
        width * height <= usize::MAX,
        words@.len() == block_count(width as int, height as int),
    ensures
        out@.len() == width * height,
        forall|i: int|
            0 <= i < out@.len() ==> (#[trigger] out@[i]).y as int == spec_sample_y(
                words@,
                width as int,
                i,
            ) && out@[i].pb as int == spec_sample_pb(words@, width as int, i) && out@[i].pr as int
                == spec_sample_pr(words@, width as int, i) && sample_wf(out@[i]),
{
    proof {
        lemma_half_dims(width as int, height as int);
    }
    let bpr: usize = width / 2;
    let total: usize = width * height;
    let mut out: Vec<ChromaSample> = Vec::new();
    while out.len() < total
        invariant
            out@.len() <= total,
        decreases total - out@.len(),
    {
        out.push(ChromaSample { y: 0, pb: 0, pr: 0 });
    }
    let mut k: usize = 0;
    while k < words.len()
        invariant
            0 <= k <= words@.len(),
            words@.len() == block_count(width as int, height as int),
            bpr == width as int / 2,
            width % 2 == 0,
            height % 2 == 0,
            total == width * height,
            out@.len() == total,
            forall|i: int|
                0 <= i < out@.len() && block_of(width as int, i) < k ==> (#[trigger] out@[i]).y
                    as int == spec_sample_y(words@, width as int, i) && out@[i].pb as int
                    == spec_sample_pb(words@, width as int, i) && out@[i].pr as int
                    == spec_sample_pr(words@, width as int, i) && sample_wf(out@[i]),
        decreases words@.len() - k,
    {
        proof {
            lemma_loop_dims(width as int, height as int, k as int);
            lemma_mod_bound(k as int, width as int / 2);
            vstd::arithmetic::div_mod::lemma_div_pos_is_pos(k as int, width as int / 2);
            vstd::arithmetic::div_mod::lemma_div_is_ordered_by_denominator(
                k as int,
                1,
                width as int / 2,
            );
            vstd::arithmetic::div_mod::lemma_div_basics(k as int);
            lemma_block_corner(width as int, height as int, k as int, 0, 0);
            lemma_block_corner(width as int, height as int, k as int, 0, 1);
            lemma_block_corner(width as int, height as int, k as int, 1, 0);
            lemma_block_corner(width as int, height as int, k as int, 1, 1);
        }
        let (s1, s2, s3, s4) = unpack_values(words[k]);
        let o: usize = 2 * (k / bpr) * width + 2 * (k % bpr);
        out.set(o, s1);
        out.set(o + 1, s2);
        out.set(o + width, s3);
        out.set(o + width + 1, s4);
        proof {
            let ghost w_int = width as int;
            assert forall|i: int|
                0 <= i < out@.len() && block_of(w_int, i) < k + 1 implies (#[trigger] out@[i]).y
                as int == spec_sample_y(words@, w_int, i) && out@[i].pb as int == spec_sample_pb(
                words@,
                w_int,
                i,
            ) && out@[i].pr as int == spec_sample_pr(words@, w_int, i) && sample_wf(out@[i]) by {
                if block_of(w_int, i) == k as int {
                    lemma_pixel_in_block(w_int, height as int, i);
                }
            }
        }
        k = k + 1;
    }
    proof {
        assert forall|i: int| 0 <= i < out@.len() implies block_of(width as int, i)
            < block_count(width as int, height as int) by {
            if width > 0 && height > 0 {
                lemma_pixel_in_block(width as int, height as int, i);
            }
        }
    }
    out
}

/// The index in the untrimmed buffer that trimmed position `i` reads.
pub open spec fn trim_src_index(width: int, i: int) -> int {
    let w2 = width - width % 2;
    (i / w2) * width + i % w2
}

/// The trimmed image: the last row and column dropped where a dimension
/// is odd.
pub open spec fn spec_trimmed(pixels: Seq<Pixel>, width: int, height: int) -> Seq<Pixel> {
    let w2 = width - width % 2;
    let h2 = height - height % 2;
    Seq::new((w2 * h2) as nat, |i: int| pixels[trim_src_index(width, i)])
}

/// Drop the last row and/or column of a row-major pixel buffer when the
/// matching dimension is odd, so that both dimensions come out even.
pub fn trim_to_even(pixels: &Vec<Pixel>, width: usize, height: usize) -> (out: Vec<Pixel>)
    requires
        pixels@.len() == width * height,
    ensures
        out@ == spec_trimmed(pixels@, width as int, height as int),
        out@.len() == (width - width % 2) * (height - height % 2),
{
    let n: usize = pixels.len();
    let w2: usize = width - width % 2;
    let h2: usize = height - height % 2;
    proof {
        assert(w2 as int * h2 as int <= width * height && w2 as int * h2 as int >= 0)
            by (nonlinear_arith)
            requires
                0 <= w2 <= width,
                0 <= h2 <= height,
        ;
    }
    let total: usize = w2 * h2;
    let ghost target = spec_trimmed(pixels@, width as int, height as int);
    let mut out: Vec<Pixel> = Vec::new();
    let mut i: usize = 0;
    while i < total
        invariant
            0 <= i <= total,
            w2 == width - width % 2,
            h2 == height - height % 2,
            total == w2 * h2,
            pixels@.len() == width * height,
            width * height <= usize::MAX,
            target == spec_trimmed(pixels@, width as int, height as int),
            target.len() == total,
            out@ == target.take(i as int),
        decreases total - i,
    {
        proof {
            lemma_trim_index_bound(width as int, height as int, i as int);
            assert(w2 >= 1) by (nonlinear_arith)
                requires
                    i < w2 as int * h2 as int,
                    0 <= i,
                    w2 >= 0,
                    h2 >= 0,
            ;
        }
        let r: usize = i / w2;
        let c: usize = i % w2;
        let p: Pixel = pixels[r * width + c];
        out.push(p);
        proof {
            assert(target.take(i + 1) =~= target.take(i as int).push(target[i as int]));
        }
        i = i + 1;
    }
    proof {
        assert(out@ =~= target);
    }
    out
}

/// The source index read for trimmed position `i` is inside the source
/// buffer.
proof fn lemma_trim_index_bound(width: int, height: int, i: int)
    requires
        width >= 0,
        height >= 0,
        0 <= i < (width - width % 2) * (height - height % 2),
    ensures
        0 <= trim_src_index(width, i),
        trim_src_index(width, i) < width * height,
        trim_src_index(width, i) == (i / (width - width % 2)) * width + i % (width - width % 2),
{
    let w2 = width - width % 2;
    let h2 = height - height % 2;
    lemma_mod_bound(width, 2);
    lemma_mod_bound(height, 2);
    assert(w2 >= 1) by (nonlinear_arith)
        requires
            0 <= i,
            i < w2 * h2,
            w2 >= 0,
            h2 >= 0,
    ;
    lemma_mod_bound(i, w2);
    vstd::arithmetic::div_mod::lemma_div_pos_is_pos(i, w2);
    lemma_multiply_divide_lt(i, w2, h2);
    let r = i / w2;
    let c = i % w2;
    assert(r * width + c < width * height && r * width + c >= 0) by (nonlinear_arith)
        requires
            0 <= r < h2,
            0 <= c < w2,
            w2 <= width,
            h2 <= height,
            width >= 1,
    ;
}

/// The sample buffer that the colour transform gives a pixel buffer.
pub open spec fn spec_to_chroma(pixels: Seq<Pixel>, den: int) -> Seq<ChromaSample> {
    Seq::new(
        pixels.len(),
        |i: int|
            ChromaSample {
                y: spec_luma(pixels[i], den) as i64,
                pb: spec_pb(pixels[i], den) as i64,
                pr: spec_pr(pixels[i], den) as i64,
            },
    )
}

/// Compress a row-major pixel buffer: trim both dimensions to even,
/// convert every pixel to luma/chroma, and pack every 2x2 block into one
/// codeword.  Returns the codewords with the trimmed dimensions.  The one
/// error is a buffer length that does not match the dimensions.
#[verifier::rlimit(60)]
pub fn compress(pixels: &Vec<Pixel>, width: usize, height: usize, den: u16) -> (r: Result<
    (Vec<u32>, usize, usize),
    CodecError,
>)
    requires
        1 <= den,
        forall|i: int| 0 <= i < pixels@.len() ==> pixel_wf(#[trigger] pixels@[i], den as int),
    ensures
        r is Ok <==> pixels@.len() == width * height,
        r is Err ==> r->Err_0 == CodecError::Dimension,
        r is Ok ==> ({
            let (words, w2, h2) = r->Ok_0;
            w2 == width - width % 2 && h2 == height - height % 2 && words@.len() == block_count(
                w2 as int,
                h2 as int,
            ) && forall|k: int|
                0 <= k < words@.len() ==> #[trigger] words@[k] as int == spec_block_word(
                    spec_to_chroma(
                        spec_trimmed(pixels@, width as int, height as int),
                        den as int,
                    ),
                    w2 as int,
                    k,
                )
        }),
{
    let n: usize = pixels.len();
    let total: usize = match width.checked_mul(height) {
        Some(t) => t,
        None => {
            return Err(CodecError::Dimension);
        },
    };
    if n != total {
        return Err(CodecError::Dimension);
    }
    let trimmed: Vec<Pixel> = trim_to_even(pixels, width, height);
    let w2: usize = width - width % 2;
    let h2: usize = height - height % 2;
    let mut samples: Vec<ChromaSample> = Vec::new();
    let mut i: usize = 0;
    while i < trimmed.len()
        invariant
            0 <= i <= trimmed@.len(),
            1 <= den,
            forall|j: int| 0 <= j < pixels@.len() ==> pixel_wf(#[trigger] pixels@[j], den as int),
            pixels@.len() == width * height,
            trimmed@ == spec_trimmed(pixels@, width as int, height as int),
            trimmed@.len() == (width - width % 2) * (height - height % 2),
            samples@.len() == i,
            forall|j: int|
                0 <= j < i ==> #[trigger] samples@[j] == spec_to_chroma(trimmed@, den as int)[j]
                    && encode_wf(samples@[j]),
        decreases trimmed@.len() - i,
    {
        proof {
            lemma_trim_index_bound(width as int, height as int, i as int);
        }
        let s: ChromaSample = rgb_to_chroma(&trimmed[i], den);
        samples.push(s);
        i = i + 1;
    }
    proof {
        assert(samples@ =~= spec_to_chroma(trimmed@, den as int));
        assert(w2 as int * h2 as int == trimmed@.len());
    }
    let words: Vec<u32> = process_blocks(&samples, w2, h2);
    Ok((words, w2, h2))
}

/// One codeword as four big-endian bytes, the order the stream format
/// persists: most significant byte first.
pub fn word_to_be_bytes(w: u32) -> (b: (u8, u8, u8, u8))
    ensures
        b.0 as int == w as int / 0x100_0000,
        b.1 as int == (w as int / 0x1_0000) % 0x100,
        b.2 as int == (w as int / 0x100) % 0x100,
        b.3 as int == w as int % 0x100,
{
    proof {
        lemma2_to64();
        vstd::bits::lemma_u32_shr_is_div(w, 24);
        vstd::bits::lemma_u32_shr_is_div(w, 16);
        vstd::bits::lemma_u32_shr_is_div(w, 8);
        vstd::bits::lemma_u32_low_bits_mask_is_mod(w >> 16, 8);
        vstd::bits::lemma_u32_low_bits_mask_is_mod(w >> 8, 8);
        vstd::bits::lemma_u32_low_bits_mask_is_mod(w, 8);
        vstd::bits::lemma_low_bits_mask_values();
        lemma_mod_bound((w as int / 0x1_0000), 0x100);
        lemma_mod_bound((w as int / 0x100), 0x100);
        lemma_mod_bound(w as int, 0x100);
        lemma_multiply_divide_lt(w as int, 0x100_0000, 0x100);
    }
    ((w >> 24) as u8, ((w >> 16) & 0xFF) as u8, ((w >> 8) & 0xFF) as u8, (w & 0xFF) as u8)
}

/// One codeword read back from its four big-endian bytes.
pub fn word_from_be_bytes(b0: u8, b1: u8, b2: u8, b3: u8) -> (w: u32)
    ensures
        w as int == b0 as int * 0x100_0000 + b1 as int * 0x1_0000 + b2 as int * 0x100
            + b3 as int,
{
    b0 as u32 * 0x100_0000 + b1 as u32 * 0x1_0000 + b2 as u32 * 0x100 + b3 as u32
}

/// Compression is deterministic: two codeword streams that both satisfy
/// the compressor's contract for the same pixel buffer, dimensions and
/// denominator are identical, because every word is pinned to a function
/// of the input alone.
pub proof fn lemma_compress_deterministic(
    pixels: Seq<Pixel>,
    width: int,
    height: int,
    den: int,
    words1: Seq<u32>,
    words2: Seq<u32>,
)
    requires
        words1.len() == block_count(width - width % 2, height - height % 2),
        words2.len() == words1.len(),
        forall|k: int|
            0 <= k < words1.len() ==> (#[trigger] words1[k]) as int == spec_block_word(
                spec_to_chroma(spec_trimmed(pixels, width, height), den),
                width - width % 2,
                k,
            ),
        forall|k: int|
            0 <= k < words2.len() ==> (#[trigger] words2[k]) as int == spec_block_word(
                spec_to_chroma(spec_trimmed(pixels, width, height), den),
                width - width % 2,
                k,
            ),
    ensures
        words1 == words2,
{
    assert forall|k: int| 0 <= k < words1.len() implies words1[k] == words2[k] by {
        assert(words1[k] as int == words2[k] as int);
    }
    assert(words1 =~= words2);
}

/// The pixel that decompression gives position `i`: the block's decoded
/// sample for that corner, taken back to RGB at the denominator's scale.
pub open spec fn spec_out_pixel(words: Seq<u32>, width: int, den: int, i: int) -> Pixel {
    let y = spec_sample_y(words, width, i);
    let pb = spec_sample_pb(words, width, i);
    let pr = spec_sample_pr(words, width, i);
    Pixel {
        red: inv_channel(spec_inv_red(y, pb, pr), den) as u16,
        green: inv_channel(spec_inv_green(y, pb, pr), den) as u16,
        blue: inv_channel(spec_inv_blue(y, pb, pr), den) as u16,
    }
}

/// Decompress a codeword stream into the row-major pixel buffer it
/// encodes.  The dimensions must both be even and the stream must hold
/// exactly one codeword per block; any mismatch is rejected before a
/// pixel is produced.
pub fn decompress(words: &Vec<u32>, width: usize, height: usize, den: u16) -> (r: Result<
    Vec<Pixel>,
    CodecError,
>)
    requires
        1 <= den,
        width * height <= usize::MAX,
    ensures
        r is Ok <==> (width % 2 == 0 && height % 2 == 0 && words@.len() == block_count(
            width as int,
            height as int,
        )),
        r is Err ==> r->Err_0 == CodecError::Dimension,
        r is Ok ==> r->Ok_0@.len() == width * height,
        r is Ok ==> forall|i: int|
            0 <= i < width * height ==> #[trigger] r->Ok_0@[i] == spec_out_pixel(
                words@,
                width as int,
                den as int,
                i,
            ),
{
    if width % 2 != 0 || height % 2 != 0 {
        return Err(CodecError::Dimension);
    }
    proof {
        lemma_half_dims(width as int, height as int);
    }
    let nblocks: usize = (width / 2) * (height / 2);
    if words.len() != nblocks {
        return Err(CodecError::Dimension);
    }
    let samples: Vec<ChromaSample> = reconstruct_blocks(words, width, height);
    let mut out: Vec<Pixel> = Vec::new();
    let mut i: usize = 0;
    while i < samples.len()
        invariant
            0 <= i <= samples@.len(),
            1 <= den,
            samples@.len() == width * height,
            words@.len() == block_count(width as int, height as int),
            forall|j: int|
                0 <= j < samples@.len() ==> (#[trigger] samples@[j]).y as int == spec_sample_y(
                    words@,
                    width as int,
                    j,
                ) && samples@[j].pb as int == spec_sample_pb(words@, width as int, j)
                    && samples@[j].pr as int == spec_sample_pr(words@, width as int, j)
                    && sample_wf(samples@[j]),
            out@.len() == i,
            forall|j: int|
                0 <= j < i ==> #[trigger] out@[j] == spec_out_pixel(
                    words@,
                    width as int,
                    den as int,
                    j,
                ),
        decreases samples@.len() - i,
    {
        let p: Pixel = chroma_to_rgb(&samples[i], den);
        out.push(p);
        i = i + 1;
    }
    Ok(out)
}

} // verus!
