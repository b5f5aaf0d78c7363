//! Channel coding of vocoder frames, and rate control words.

use asl_dmr_bridge::rates::{rate_name, KNOWN_RATES, RATEP_DMR, RATEP_DSTAR, RATEP_IDX35, RATEP_RAW};
use asl_dmr_bridge::voice_channel::{
    channel_decode, channel_encode, golay_23_12_encode, golay_24_12_encode, to_source_bits,
    RAW_BYTES,
};

#[test]
fn golay_23_12_known_zero() {
    assert_eq!(golay_23_12_encode(0), 0);
}

#[test]
fn golay_23_12_systematic_data_position() {
    let cw = golay_23_12_encode(0x801);
    assert_eq!((cw >> 22) & 1, 1);
    assert_eq!((cw >> 11) & 1, 1);
}

#[test]
fn golay_24_12_extended_parity_balances() {
    for data in 0u16..(1 << 12) {
        let cw = golay_24_12_encode(data);
        assert_eq!(
            cw.count_ones() % 2,
            0,
            "data={data:x}: codeword parity not even"
        );
    }
}

#[test]
fn golay_words_are_far_apart() {
    for data in 1u16..(1 << 12) {
        assert!(golay_23_12_encode(data).count_ones() >= 7);
        assert!(golay_24_12_encode(data).count_ones() >= 8);
    }
}

#[test]
fn channel_encode_decode_round_trip() {
    let mut state = 0x2545_F491_4F6C_DD1Du64;
    for _ in 0..500 {
        let mut raw = [0u8; RAW_BYTES];
        for b in raw.iter_mut() {
            state ^= state << 13;
            state ^= state >> 7;
            state ^= state << 17;
            *b = (state >> 32) as u8;
        }
        raw[6] &= 0x80;
        assert_eq!(channel_decode(&channel_encode(&raw)), raw);
    }
}

#[test]
fn source_bits_stand_in_their_own_order() {
    for (chip, source) in [(0usize, 0usize), (1, 18), (2, 36), (41, 14), (42, 32), (40, 31)] {
        let mut raw = [0u8; RAW_BYTES];
        raw[chip / 8] = 0x80 >> (chip % 8);
        let mut expected = [0u8; RAW_BYTES];
        expected[source / 8] = 0x80 >> (source % 8);
        assert_eq!(to_source_bits(&channel_encode(&raw)), expected, "chip bit {chip}");
    }
}

#[test]
fn rates_have_names() {
    assert_eq!(rate_name(&RATEP_DMR), Some("DMR / P25 half-rate (idx 33)"));
    assert_eq!(rate_name(&RATEP_RAW), Some("raw 2450 voice (idx 34)"));
    assert_eq!(rate_name(&RATEP_DSTAR), Some("D-Star (idx 23)"));
    assert_eq!(rate_name(&RATEP_IDX35), Some("rate idx 35 (3400/2250/1150)"));
    assert_eq!(rate_name(&[0; 12]), None);
    for (name, words) in KNOWN_RATES {
        assert_eq!(rate_name(&words), Some(name));
    }
}
