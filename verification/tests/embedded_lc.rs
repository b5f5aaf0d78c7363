//! Embedded link control.

use asl_dmr_bridge::dmrd::DMR_DATA_SIZE;
use asl_dmr_bridge::embedded_lc::{build_fragments, crc5_embedded, decode_raw, encode_raw, lcss_for_fragment, DecodeError, DATA_BITS, FRAGMENT_BITS, FRAGMENT_BYTES, LCSS_CONTINUATION, LCSS_FIRST, LCSS_LAST, LCSS_NULL, RAW_BITS, ROW_BITS};
use asl_dmr_bridge::fec::hamming_16_11_parity;
use asl_dmr_bridge::frame::extract_sync_section;

#[test]
fn crc5_zeros() {
    assert_eq!(crc5_embedded(&[0u8; 9]), 0);
}

#[test]
fn crc5_tg91_from_3151238() {
    let data: [u8; 9] = [0x00, 0x00, 0x00, 0x00, 0x00, 0x5B, 0x30, 0x15, 0x86];
    assert_eq!(crc5_embedded(&data), 15);
}

#[test]
fn crc5_mod31_wraps() {
    let data: [u8; 9] = [0x1F, 0, 0, 0, 0, 0, 0, 0, 0];
    assert_eq!(crc5_embedded(&data), 0);
    let data: [u8; 9] = [0x20, 0, 0, 0, 0, 0, 0, 0, 0];
    assert_eq!(crc5_embedded(&data), 1);
}

#[test]
fn encode_raw_all_zero_input() {
    let lc = [0u8; DATA_BITS];
    let raw = encode_raw(&lc);
    assert!(raw.iter().all(|&b| b == 0));
}

#[test]
fn encode_raw_parity_holds() {
    let mut lc = [0u8; DATA_BITS];
    for (i, b) in lc.iter_mut().enumerate() {
        *b = ((i * 7 + 3) & 1) as u8;
    }
    let raw = encode_raw(&lc);

    let mut mat = [0u8; RAW_BITS];
    let mut idx = 0usize;
    for &bit in raw.iter() {
        mat[idx] = bit;
        idx += ROW_BITS;
        if idx > 127 {
            idx -= 127;
        }
    }

    for row_start in (0..112).step_by(ROW_BITS) {
        let mut d = [0u8; 11];
        d.copy_from_slice(&mat[row_start..row_start + 11]);
        let expected = hamming_16_11_parity(&d);
        let got = &mat[row_start + 11..row_start + ROW_BITS];
        assert_eq!(got, &expected, "row at {row_start}");
    }

    for col in 0..ROW_BITS {
        let xor = mat[col]
            ^ mat[16 + col]
            ^ mat[32 + col]
            ^ mat[48 + col]
            ^ mat[64 + col]
            ^ mat[80 + col]
            ^ mat[96 + col];
        assert_eq!(mat[112 + col], xor, "col {col}");
    }
}

#[test]
fn fragments_split_evenly() {
    let lc = [0u8; DATA_BITS];
    let f = build_fragments(&lc);
    assert_eq!(f.len(), 4);
    for frag in &f {
        assert_eq!(frag.len(), 4);
    }
}

#[test]
fn fragments_all_zero_for_zero_lc() {
    let lc = [0u8; DATA_BITS];
    let f = build_fragments(&lc);
    for frag in &f {
        assert_eq!(*frag, [0u8; 4]);
    }
}

/// Build a 72-bit bit-array from 9 bytes MSB-first.  Test helper
/// mirroring what voice.rs does with build_voice_lc output slicing.
fn lc_bits_from_bytes(lc_bytes: [u8; 9]) -> [u8; DATA_BITS] {
    let mut bits = [0u8; DATA_BITS];
    for (i, byte) in lc_bytes.iter().enumerate() {
        for bit in 0..8 {
            bits[i * 8 + bit] = (byte >> (7 - bit)) & 1;
        }
    }
    bits
}

#[test]
fn fragments_match_dmrpy_reference() {
    let lc_bytes = [0x00, 0x10, 0x20, 0x00, 0x0C, 0x30, 0x2F, 0x9B, 0xE5];
    let expected = [
        [0x4E, 0x0F, 0x06, 0x06], // B (LCSS=1)
        [0x17, 0x11, 0x00, 0x47], // C (LCSS=3)
        [0x0C, 0x03, 0x18, 0x1B], // D (LCSS=3)
        [0x17, 0x5A, 0x0F, 0x4E], // E (LCSS=2)
    ];
    let lc_bits = lc_bits_from_bytes(lc_bytes);
    assert_eq!(build_fragments(&lc_bits), expected);
}

#[test]
fn crc5_matches_dmrpy_reference() {
    let lc_bytes = [0x00, 0x10, 0x20, 0x00, 0x0C, 0x30, 0x2F, 0x9B, 0xE5];
    assert_eq!(crc5_embedded(&lc_bytes), 0xC);
}

#[test]
fn lcss_sequence() {
    assert_eq!(lcss_for_fragment(0), LCSS_FIRST);
    assert_eq!(lcss_for_fragment(1), LCSS_CONTINUATION);
    assert_eq!(lcss_for_fragment(2), LCSS_CONTINUATION);
    assert_eq!(lcss_for_fragment(3), LCSS_LAST);
    assert_eq!(lcss_for_fragment(4), LCSS_NULL);
}

#[test]
fn decode_raw_clean_round_trip() {
    let lc_bytes = [0x00, 0x10, 0x20, 0x00, 0x0C, 0x30, 0x2F, 0x9B, 0xE5];
    let lc_bits = lc_bits_from_bytes(lc_bytes);
    let raw = encode_raw(&lc_bits);
    assert_eq!(decode_raw(&raw), Ok(lc_bytes));
}

#[test]
fn decode_raw_recovers_single_bit_errors() {
    let lc_bytes = [0x00, 0x10, 0x20, 0x00, 0x0C, 0x30, 0x2F, 0x9B, 0xE5];
    let lc_bits = lc_bits_from_bytes(lc_bytes);
    let raw = encode_raw(&lc_bits);
    for pos in 0..RAW_BITS {
        let mut corrupted = raw;
        corrupted[pos] ^= 1;
        assert_eq!(
            decode_raw(&corrupted),
            Ok(lc_bytes),
            "did not recover from raw[{pos}] flip"
        );
    }
}

#[test]
fn decode_raw_detects_double_errors_in_a_row() {
    let lc_bytes = [0x00, 0x10, 0x20, 0x00, 0x0C, 0x30, 0x2F, 0x9B, 0xE5];
    let lc_bits = lc_bits_from_bytes(lc_bytes);
    let mut raw = encode_raw(&lc_bits);
    raw[0] ^= 1;
    raw[8] ^= 1;
    assert_eq!(decode_raw(&raw), Err(DecodeError::Hamming));
}

#[test]
fn embedded_lc_reconstructs_dmrpy_voice_superframe() {
    const BURSTS: &[&str] = &[
        "B9E881526173002A6BB9E881526134E0F060691173002A6BB9E881526173002A6A",
        "B9E881526173002A6BB9E881526171711004774173002A6BB9E881526173002A6A",
        "B9E881526173002A6B954BE6500170C03181B74310B00777A6C6CB53732789483A",
        "865AE7617555B50601B758E665115175A0F4E07124815001FFF5A337706128A7CA",
    ];

    let mut raw = [0u8; RAW_BITS];
    for (i, hex_burst) in BURSTS.iter().enumerate() {
        let burst_bytes = hex::decode(hex_burst).unwrap();
        let burst: [u8; DMR_DATA_SIZE] = burst_bytes.try_into().unwrap();
        let sync_section = extract_sync_section(&burst);
        for byte_idx in 0..FRAGMENT_BYTES {
            for bit in 0..8 {
                raw[i * FRAGMENT_BITS + byte_idx * 8 + bit] =
                    (sync_section[1 + byte_idx] >> (7 - bit)) & 1;
            }
        }
    }

    let lc_bytes = decode_raw(&raw).expect("dmrpy VOICE_SUPERFRAME should decode cleanly");
    assert_eq!(
        lc_bytes,
        [0x00, 0x10, 0x20, 0x00, 0x0C, 0x30, 0x2F, 0x9B, 0xE5],
        "VOICE_SUPERFRAME LC mismatch vs dmrpy"
    );
}

#[test]
fn decode_raw_all_double_flips_never_miscorrect() {
    let lc_bytes = [0x00, 0x10, 0x20, 0x00, 0x0C, 0x30, 0x2F, 0x9B, 0xE5];
    let lc_bits = lc_bits_from_bytes(lc_bytes);
    let raw = encode_raw(&lc_bits);
    for i in 0..RAW_BITS {
        for j in (i + 1)..RAW_BITS {
            let mut corrupted = raw;
            corrupted[i] ^= 1;
            corrupted[j] ^= 1;
            if let Ok(got) = decode_raw(&corrupted) {
                assert_eq!(
                    got, lc_bytes,
                    "miscorrection at flips ({i}, {j}): got wrong LC"
                );
            }
        }
    }
}
