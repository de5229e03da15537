use rpeg::blocks::{forward_block, inverse_block};
use rpeg::codec::{
    compress, decompress, pack_values, process_blocks, reconstruct_blocks, trim_to_even,
    unpack_values, word_from_be_bytes, word_to_be_bytes, CodecError,
};
use rpeg::color::{chroma_to_rgb, rgb_to_chroma, ChromaSample, Pixel};
use rpeg::quantize::{chroma_of_index, dequantize_coeff, index_of_chroma, quantize_coeff};

fn px(red: u16, green: u16, blue: u16) -> Pixel {
    Pixel { red, green, blue }
}

#[test]
fn color_round_trip_is_exact() {
    // The spec allows one unit of error per channel; the fixed-point
    // transform recovers every channel exactly.
    for &(r, g, b) in &[(12, 200, 33), (0, 0, 0), (255, 255, 255), (1, 2, 3), (128, 128, 128)] {
        let p = px(r, g, b);
        let s = rgb_to_chroma(&p, 255);
        let back = chroma_to_rgb(&s, 255);
        assert_eq!(back, p);
    }
    // Other denominators round trip as well.
    let p = px(31, 0, 17);
    let s = rgb_to_chroma(&p, 31);
    assert_eq!(chroma_to_rgb(&s, 31), p);
}

#[test]
fn block_transform_round_trip_is_exact() {
    let cases: [(i64, i64, i64, i64); 3] = [
        (0, 0, 0, 0),
        (1_000_000_000_000, 0, 999_999_999_999, 123_456_789),
        (5, 17, 400_000_000_000, 1_000_000_000_000),
    ];
    for &(y1, y2, y3, y4) in &cases {
        let co = forward_block(y1, y2, y3, y4);
        let ys = inverse_block(&co);
        assert_eq!(ys, (y1, y2, y3, y4));
    }
}

#[test]
fn compression_is_deterministic() {
    let pixels: Vec<Pixel> = vec![
        px(1, 2, 3),
        px(200, 100, 50),
        px(255, 0, 255),
        px(17, 17, 17),
        px(4, 140, 90),
        px(90, 4, 140),
    ];
    let first = compress(&pixels, 3, 2, 255).unwrap();
    let second = compress(&pixels, 3, 2, 255).unwrap();
    assert_eq!(first.0, second.0);
    assert_eq!(first.1, second.1);
    assert_eq!(first.2, second.2);
}

#[test]
fn gray_block_scenario() {
    // A 2x2 solid-gray image compresses to one codeword: the averaged
    // luma decodes back near 128/255 and the three difference fields are
    // all zero.  The chroma codebook has no zero level, so the nearest
    // level (-0.011) pulls red and blue down a little on the way back.
    let pixels: Vec<Pixel> = vec![px(128, 128, 128); 4];
    let (words, w, h) = compress(&pixels, 2, 2, 255).unwrap();
    assert_eq!((w, h), (2, 2));
    assert_eq!(words.len(), 1);
    let word = words[0];
    // quantized a in bits 23..32: 257, and 257/512 is within 1/512 of 128/255
    assert_eq!(word >> 23, 257);
    // b, c, d fields (five bits each at 18, 13, 8) are all zero
    assert_eq!((word >> 8) & 0x7FFF, 0);
    let out = decompress(&words, 2, 2, 255).unwrap();
    assert_eq!(out.len(), 4);
    for p in &out {
        assert_eq!(*p, px(124, 131, 123));
    }
}

#[test]
fn malformed_stream_is_rejected() {
    // Word count not matching (width/2)*(height/2) blocks is rejected.
    let words: Vec<u32> = vec![0, 0, 0];
    assert_eq!(decompress(&words, 4, 2, 255), Err(CodecError::Dimension));
    // Odd dimensions cannot come from the compressor and are rejected.
    assert_eq!(decompress(&words, 3, 2, 255), Err(CodecError::Dimension));
    // A matching count is accepted.
    let ok: Vec<u32> = vec![0, 0];
    assert!(decompress(&ok, 4, 2, 255).is_ok());
}

#[test]
fn compress_rejects_bad_length() {
    let pixels: Vec<Pixel> = vec![px(0, 0, 0); 5];
    assert!(compress(&pixels, 2, 2, 255).is_err());
    assert!(compress(&pixels, 5, 1, 255).is_ok());
}

#[test]
fn trim_drops_odd_row_and_column() {
    let pixels: Vec<Pixel> = vec![
        px(1, 1, 1),
        px(2, 2, 2),
        px(3, 3, 3),
        px(4, 4, 4),
        px(5, 5, 5),
        px(6, 6, 6),
        px(7, 7, 7),
        px(8, 8, 8),
        px(9, 9, 9),
    ];
    let out = trim_to_even(&pixels, 3, 3);
    assert_eq!(out, vec![px(1, 1, 1), px(2, 2, 2), px(4, 4, 4), px(5, 5, 5)]);
    let even = trim_to_even(&pixels.clone(), 3, 3);
    assert_eq!(even.len(), 4);
}

#[test]
fn end_to_end_round_trip_stays_close() {
    // A small image survives a compress/decompress cycle with modest
    // per-channel error.
    let pixels: Vec<Pixel> = vec![
        px(10, 20, 30),
        px(12, 22, 32),
        px(14, 24, 34),
        px(16, 26, 36),
        px(200, 180, 160),
        px(202, 182, 162),
        px(204, 184, 164),
        px(206, 186, 166),
    ];
    let (words, w, h) = compress(&pixels, 4, 2, 255).unwrap();
    assert_eq!(words.len(), 2);
    let out = decompress(&words, w, h, 255).unwrap();
    assert_eq!(out.len(), 8);
    for (a, b) in pixels.iter().zip(out.iter()) {
        assert!((a.red as i32 - b.red as i32).abs() <= 24);
        assert!((a.green as i32 - b.green as i32).abs() <= 24);
        assert!((a.blue as i32 - b.blue as i32).abs() <= 24);
    }
}

#[test]
fn pack_and_unpack_are_inverse_on_fields() {
    let s1 = ChromaSample { y: 900_000_000_000, pb: -40_000_000_000, pr: 70_000_000_000 };
    let s2 = ChromaSample { y: 880_000_000_000, pb: -40_000_000_000, pr: 70_000_000_000 };
    let s3 = ChromaSample { y: 860_000_000_000, pb: -40_000_000_000, pr: 70_000_000_000 };
    let s4 = ChromaSample { y: 840_000_000_000, pb: -40_000_000_000, pr: 70_000_000_000 };
    let word = pack_values(&s1, &s2, &s3, &s4);
    let (t1, t2, t3, t4) = unpack_values(word);
    // The decoded luma samples stay close to the originals.
    for (orig, dec) in [(&s1, &t1), (&s2, &t2), (&s3, &t3), (&s4, &t4)] {
        assert!((orig.y - dec.y).abs() <= 25_000_000_000);
    }
    // All four corners share the block's chroma pair.
    assert_eq!(t1.pb, t2.pb);
    assert_eq!(t1.pb, t3.pb);
    assert_eq!(t1.pb, t4.pb);
    assert_eq!(t1.pr, t2.pr);
}

#[test]
fn process_and_reconstruct_blocks_agree() {
    let samples: Vec<ChromaSample> = vec![
        ChromaSample { y: 100_000_000_000, pb: 0, pr: 0 },
        ChromaSample { y: 200_000_000_000, pb: 0, pr: 0 },
        ChromaSample { y: 300_000_000_000, pb: 0, pr: 0 },
        ChromaSample { y: 400_000_000_000, pb: 0, pr: 0 },
    ];
    let words = process_blocks(&samples, 2, 2);
    assert_eq!(words.len(), 1);
    let back = reconstruct_blocks(&words, 2, 2);
    assert_eq!(back.len(), 4);
    for (orig, dec) in samples.iter().zip(back.iter()) {
        assert!((orig.y - dec.y).abs() <= 45_000_000_000);
    }
}

#[test]
fn quantize_coeff_clamps_and_scales() {
    // 0.3 (and beyond) saturates at 15; -0.3 and beyond at -15.
    assert_eq!(quantize_coeff(1_200_000_000_000), 15);
    assert_eq!(quantize_coeff(2_000_000_000_000), 15);
    assert_eq!(quantize_coeff(-1_200_000_000_000), -15);
    assert_eq!(quantize_coeff(-2_000_000_000_000), -15);
    assert_eq!(quantize_coeff(0), 0);
    // 0.1 maps to round(0.1 * 50) == 5.
    assert_eq!(quantize_coeff(400_000_000_000), 5);
    assert_eq!(dequantize_coeff(5), 400_000_000_000);
}

#[test]
fn chroma_codebook_matches_published_table() {
    // The crate's quantization table, checked against the integer
    // codebook at the codec's working scale.
    let probes: [(f32, u64); 11] = [
        (-0.5, 0),
        (-0.3, 0),
        (-0.25, 1),
        (-0.08, 4),
        (-1e-8, 7),
        (0.0, 7),
        (1e-8, 8),
        (0.12, 12),
        (0.25, 14),
        (0.3, 15),
        (0.5, 15),
    ];
    for &(chroma, expected) in &probes {
        let sum = (chroma as f64 * 4.0e12).round() as i64;
        assert_eq!(index_of_chroma(sum), expected);
        assert_eq!(csc411_arith::index_of_chroma(chroma) as u64, expected);
    }
    for i in 0..16u64 {
        let level = chroma_of_index(i);
        let published = csc411_arith::chroma_of_index(i as usize) as f64;
        assert!((level as f64 / 1.0e12 - published).abs() < 1e-6);
    }
}

#[test]
fn codeword_bytes_are_big_endian() {
    let (b0, b1, b2, b3) = word_to_be_bytes(0x8080_0077);
    assert_eq!((b0, b1, b2, b3), (0x80, 0x80, 0x00, 0x77));
    assert_eq!(word_from_be_bytes(b0, b1, b2, b3), 0x8080_0077);
    assert_eq!([b0, b1, b2, b3], 0x8080_0077u32.to_be_bytes());
    for &w in &[0u32, 1, 0xFFFF_FFFF, 0x1234_5678] {
        let (c0, c1, c2, c3) = word_to_be_bytes(w);
        assert_eq!(word_from_be_bytes(c0, c1, c2, c3), w);
    }
}
