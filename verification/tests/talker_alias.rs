//! Talker alias.

use asl_dmr_bridge::talker_alias::{encode_block_bytes, encode_header_bytes, encode_talker_alias_lcs, bytes_to_bits, BLOCK_CHARS, FLCO_TA_BLOCK_1, FLCO_TA_BLOCK_2, FLCO_TA_BLOCK_3, HEADER_CHARS, MAX_ALIAS_CHARS, MAX_BLOCKS};

#[test]
fn rejects_empty_alias() {
    assert!(encode_talker_alias_lcs("").is_empty());
}

#[test]
fn rejects_over_max() {
    let too_long = "A".repeat(MAX_ALIAS_CHARS + 1);
    assert!(encode_talker_alias_lcs(&too_long).is_empty());
}

#[test]
fn rejects_non_ascii() {
    assert!(encode_talker_alias_lcs("ABC\u{00FC}DE").is_empty());
}

#[test]
fn one_lc_for_seven_or_fewer_chars() {
    for n in 1..=HEADER_CHARS {
        let s = "A".repeat(n);
        assert_eq!(encode_talker_alias_lcs(&s).len(), 1);
    }
}

#[test]
fn two_lcs_for_eight_to_fifteen_chars() {
    for n in (HEADER_CHARS + 1)..=(HEADER_CHARS + BLOCK_CHARS) {
        let s = "A".repeat(n);
        assert_eq!(encode_talker_alias_lcs(&s).len(), 2);
    }
}

#[test]
fn four_lcs_for_max_chars() {
    let s = "A".repeat(MAX_ALIAS_CHARS);
    assert_eq!(encode_talker_alias_lcs(&s).len(), 1 + MAX_BLOCKS);
}

#[test]
fn header_abcde_matches_hand_derived_bytes() {
    let lc = encode_header_bytes(5, "ABCDE");
    assert_eq!(lc, [0x04, 0x00, 0x0B, 0x06, 0x14, 0x38, 0x91, 0x40, 0x00]);
}

#[test]
fn header_seven_chars_fully_fills_ta_data() {
    let lc = encode_header_bytes(7, "ABCDEFG");
    assert_eq!(lc[0], 0x04);
    assert_eq!(lc[2], 0x0F);
}

#[test]
fn header_stamps_total_length_not_head_length() {
    let lc = encode_header_bytes(15, "ABCDEFG");
    assert_eq!(lc[2], 0x1F);
}

#[test]
fn block_flco_byte_0() {
    assert_eq!(encode_block_bytes(FLCO_TA_BLOCK_1, b"")[0], 0x05);
    assert_eq!(encode_block_bytes(FLCO_TA_BLOCK_2, b"")[0], 0x06);
    assert_eq!(encode_block_bytes(FLCO_TA_BLOCK_3, b"")[0], 0x07);
}

#[test]
fn block_eight_chars_fully_fills_ta_data() {
    let lc = encode_block_bytes(FLCO_TA_BLOCK_1, b"ABCDEFGH");
    assert_eq!(&lc[2..9], &[0x83, 0x0A, 0x1C, 0x48, 0xB1, 0xA3, 0xC8]);
}

#[test]
fn block_short_chunk_zero_pads_right() {
    let lc = encode_block_bytes(FLCO_TA_BLOCK_1, b"A");
    assert_eq!(lc[2], 0x82);
    assert_eq!(&lc[3..9], &[0; 6]);
}

#[test]
fn lcs_for_15_char_alias_split_correctly() {
    let lcs = encode_talker_alias_lcs("ABCDEFGHIJKLMNO");
    assert_eq!(lcs.len(), 2);
    assert_eq!(&lcs[0][0..8], &[0, 0, 0, 0, 0, 1, 0, 0]);
    assert_eq!(&lcs[1][0..8], &[0, 0, 0, 0, 0, 1, 0, 1]);
}

#[test]
fn bytes_to_bits_round_trips_msb_first() {
    let bytes = [0x80, 0x01, 0x55, 0xAA, 0x00, 0xFF, 0x42, 0x69, 0x96];
    let bits = bytes_to_bits(&bytes);
    assert_eq!(&bits[0..8], &[1, 0, 0, 0, 0, 0, 0, 0]);
    assert_eq!(&bits[8..16], &[0, 0, 0, 0, 0, 0, 0, 1]);
    assert_eq!(&bits[16..24], &[0, 1, 0, 1, 0, 1, 0, 1]);
}

#[test]
fn aliases_are_told_apart() {
    let texts = ["N", "N0", "N0CALL", "N0CALM", "N0CALLSIGN", "N0CALLSIGM", "N0CALLSIGN 2"];
    for a in texts {
        for b in texts {
            let same = encode_talker_alias_lcs(a) == encode_talker_alias_lcs(b);
            assert_eq!(same, a == b, "{a} {b}");
        }
    }
}
