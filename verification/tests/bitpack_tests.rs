use rpeg::bitpack::{fitss, fitsu, gets, getu, news, newu};

#[test]
fn it_works() {
    let result = 2 + 2;
    assert_eq!(result, 4);
}

#[test]
fn fitss_boundary() {
    assert_eq!(fitss(15, 5), true);
    assert_eq!(fitss(16, 5), false);
    assert_eq!(fitss(-16, 5), true);
    assert_eq!(fitss(-17, 5), false);
}

#[test]
fn fitsu_boundary() {
    assert_eq!(fitsu(0, 0), false);
    assert_eq!(fitsu(511, 9), true);
    assert_eq!(fitsu(512, 9), false);
    assert_eq!(fitsu(u64::MAX, 64), true);
}

#[test]
fn pack_nine_bit_field_at_23() {
    // Packing word 0 with unsigned value 0x1A3 into a 9-bit field at
    // lsb 23 and reading it back yields 0x1A3.
    let word = newu(0, 9, 23, 0x1A3).unwrap();
    assert_eq!(getu(word, 9, 23), Some(0x1A3));
    // Packing an out-of-range value fails.
    assert_eq!(newu(0, 9, 23, 512), None);
}

#[test]
fn unsigned_round_trip_keeps_other_bits() {
    let word: u64 = 0xDEAD_BEEF_CAFE_F00D;
    let updated = newu(word, 11, 17, 0x5A5).unwrap();
    assert_eq!(getu(updated, 11, 17), Some(0x5A5));
    // All bits outside [17, 28) are unchanged.
    let mask: u64 = ((1u64 << 11) - 1) << 17;
    assert_eq!(updated & !mask, word & !mask);
}

#[test]
fn signed_round_trip_keeps_other_bits() {
    let word: u64 = 0x0123_4567_89AB_CDEF;
    let updated = news(word, 7, 40, -42).unwrap();
    assert_eq!(gets(updated, 7, 40), Some(-42));
    let mask: u64 = ((1u64 << 7) - 1) << 40;
    assert_eq!(updated & !mask, word & !mask);
    // A non-negative value round trips too.
    let updated2 = news(word, 7, 40, 63).unwrap();
    assert_eq!(gets(updated2, 7, 40), Some(63));
}

#[test]
fn invalid_geometry_is_rejected() {
    assert_eq!(getu(7, 0, 3), None);
    assert_eq!(getu(7, 16, 56), None);
    assert_eq!(gets(7, 0, 3), None);
    assert_eq!(gets(7, 33, 32), None);
    assert_eq!(newu(0, 16, 56, 1), None);
    assert_eq!(news(0, 16, 56, 1), None);
    // The full word is a valid field.
    assert_eq!(getu(u64::MAX, 64, 0), Some(u64::MAX));
    assert_eq!(gets(u64::MAX, 64, 0), Some(-1));
}

#[test]
fn sign_extension_uses_field_msb() {
    // Field value 0b10000 in five bits denotes -16.
    let word = newu(0, 5, 8, 0b10000).unwrap();
    assert_eq!(gets(word, 5, 8), Some(-16));
    assert_eq!(getu(word, 5, 8), Some(16));
    // Field value 0b01111 denotes +15.
    let word2 = newu(0, 5, 8, 0b01111).unwrap();
    assert_eq!(gets(word2, 5, 8), Some(15));
}
