//! BPTC(196,96) and voice LC bursts.

use asl_dmr_bridge::bptc::{bptc_decode_correct, bptc_encode, build_data_burst, build_voice_lc, decode_voice_lc_burst, encode_slot_type, extract_burst_interleaved, BPTC_BITS, DATA_BITS, DATA_POSITIONS};
use asl_dmr_bridge::dmrd::DMR_DATA_SIZE;
use asl_dmr_bridge::sync::BS_DATA_SYNC;

#[test]
fn data_positions_count() {
    assert_eq!(DATA_POSITIONS.len(), DATA_BITS);
}

#[test]
fn data_positions_in_range() {
    for &pos in &DATA_POSITIONS {
        assert!(pos < BPTC_BITS, "position {pos} out of range");
    }
}

#[test]
fn data_positions_no_duplicates() {
    let mut seen = [false; BPTC_BITS];
    for &pos in &DATA_POSITIONS {
        assert!(!seen[pos], "duplicate position {pos}");
        seen[pos] = true;
    }
}

/// Minimal BPTC decoder used only for the encode/decode
/// round-trip test below: inverse interleave + data-bit
/// extraction with no Hamming correction.  Production validators
/// use bptc_decode_correct (defined at module scope above).
fn bptc_decode(interleaved: &[u8; BPTC_BITS]) -> [u8; DATA_BITS] {
    let mut matrix = [0u8; BPTC_BITS];
    for (i, slot) in matrix.iter_mut().enumerate() {
        *slot = interleaved[(i * 181) % BPTC_BITS];
    }
    let mut data = [0u8; DATA_BITS];
    for (i, &pos) in DATA_POSITIONS.iter().enumerate() {
        data[i] = matrix[pos];
    }
    data
}

#[test]
fn bptc_decode_correct_recovers_single_bit_errors() {
    let mut data = [0u8; DATA_BITS];
    for (i, b) in data.iter_mut().enumerate() {
        *b = ((i * 5 + 1) & 1) as u8;
    }
    let encoded = bptc_encode(&data);
    for pos in 0..BPTC_BITS {
        let mut corrupted = encoded;
        corrupted[pos] ^= 1;
        let (decoded, corrected) = bptc_decode_correct(&corrupted)
            .unwrap_or_else(|| panic!("uncorrectable at bit {pos}"));
        assert_eq!(decoded, data, "did not recover from flip at bit {pos}");
        let expected_min = if pos == 0 { 0 } else { 1 };
        assert!(
            corrected >= expected_min,
            "corrected count {corrected} too low for bit {pos}"
        );
    }
}

#[test]
fn bptc_decode_correct_passes_clean_codeword() {
    let mut data = [0u8; DATA_BITS];
    for (i, b) in data.iter_mut().enumerate() {
        *b = (i & 1) as u8;
    }
    let encoded = bptc_encode(&data);
    assert_eq!(bptc_decode_correct(&encoded), Some((data, 0)));
}

#[test]
fn bptc_encode_decode_roundtrip() {
    let mut data = [0u8; DATA_BITS];
    for (i, b) in data.iter_mut().enumerate() {
        *b = ((i * 7 + 3) & 1) as u8;
    }
    let encoded = bptc_encode(&data);
    assert_eq!(bptc_decode(&encoded), data);
}

/// Pack 96 extracted data bits to 12 LC bytes, MSB-first.
fn pack_lc_bytes(data_bits: &[u8; DATA_BITS]) -> [u8; 12] {
    let mut bytes = [0u8; 12];
    for (i, byte) in bytes.iter_mut().enumerate() {
        for bit in 0..8 {
            *byte |= (data_bits[i * 8 + bit] & 1) << (7 - bit);
        }
    }
    bytes
}

/// Decode a 33-byte captured burst to 12 LC bytes via our BPTC
/// decoder, for asserting ground-truth LC content.
fn decode_burst_to_lc_bytes(burst_hex: &str) -> [u8; 12] {
    let bytes = hex::decode(burst_hex).unwrap();
    let burst: [u8; DMR_DATA_SIZE] = bytes.try_into().unwrap();
    let interleaved = extract_burst_interleaved(&burst);
    pack_lc_bytes(&bptc_decode(&interleaved))
}

/// Captured Brandmeister bursts for TG 91, 2026-04-16.  Each row
/// is (src_id, header hex, terminator hex).  All are group calls
/// (FLCO=0) at color_code=1 on BM default.
const BM_CAPTURES: &[(u32, &str, &str)] = &[
    (
        3151238, // 2026-04-15 capture (original compare_against_bm_capture)
        "018b0aec1234093072c00500446dff57d75df5de327414f832a00ac008c12f82b3",
        "", // no terminator captured for this call
    ),
    (
        5201886,
        "030f0f321b981db07bf02860c46dff57d75df5de33880d001d6050204d015383ed",
        "03600fe61b281dc87b8028c0c4adff57d75df5d9669c0e381a005c6045014a83de",
    ),
    (
        3221731,
        "00580a70171c0e2066701360046dff57d75df5de32e01a5021a025403a81518387",
        "00370aa417ac0e58660013c004adff57d75df5d967f4196826c0290032814883b4",
    ),
    (
        3222582,
        "00d10a9c103404886ee00d80446dff57d75df5de33241c7024603a403e4118031f",
        "00be0a48108404f06e900d2044adff57d75df5d966301f4823003600364101032c",
    ),
    (
        2342361,
        "039f09fc16f817304fe01500446dff57d75df5de316808b03ab033400a01f203e4",
        "03f00928164817484f9015a044adff57d75df5d9647c0b883dd03f000201eb03d7",
    ),
    (
        3023805,
        "038d0f141b701aa053403ba0046dff57d75df5de313004702f203c00360128829c",
        "03e20fc01bc01ad853303b0004adff57d75df5d964240748284030403e013182af",
    ),
];

#[test]
fn bptc_encode_matches_bm_header_captures() {
    let sync = BS_DATA_SYNC;
    for &(src_id, header_hex, _) in BM_CAPTURES {
        let captured = hex::decode(header_hex).unwrap();
        let lc = build_voice_lc(true, 91, src_id, 1);
        let burst = build_data_burst(&lc, 1, 1, &sync);
        assert_eq!(burst[..], captured[..], "header mismatch for src={src_id}");
    }
}

#[test]
fn bptc_encode_matches_bm_terminator_captures() {
    let sync = BS_DATA_SYNC;
    for &(src_id, _, term_hex) in BM_CAPTURES {
        if term_hex.is_empty() {
            continue;
        }
        let captured = hex::decode(term_hex).unwrap();
        let lc = build_voice_lc(true, 91, src_id, 2);
        let burst = build_data_burst(&lc, 2, 1, &sync);
        assert_eq!(
            burst[..],
            captured[..],
            "terminator mismatch for src={src_id}"
        );
    }
}

#[test]
fn bptc_decode_bm_captures_yield_group_call_lc() {
    for &(src_id, header_hex, _) in BM_CAPTURES {
        let bytes = decode_burst_to_lc_bytes(header_hex);
        let [s2, s1, s0] = src_id.to_be_bytes()[1..4].try_into().unwrap();
        assert_eq!(
            &bytes[..9],
            &[0x00, 0x00, 0x00, 0x00, 0x00, 0x5B, s2, s1, s0],
            "header LC body mismatch for src={src_id}"
        );
    }
}

#[test]
fn bptc_roundtrips_okdmrlib_wire_bursts() {
    const BURSTS: &[&str] = &[
        "53df0a83b7a8282c2509625014fdff57d75df5dcadde429028c87ae3341e24191c",
        "51cf0ded894c0dec1ff8fcf294fdff57d75df5dcae7a16d064197982bf5824914c",
    ];
    for hex_burst in BURSTS {
        let bytes = hex::decode(hex_burst).unwrap();
        let burst: [u8; DMR_DATA_SIZE] = bytes.try_into().unwrap();
        let original_interleaved = extract_burst_interleaved(&burst);
        let data_bits = bptc_decode(&original_interleaved);
        let reencoded = bptc_encode(&data_bits);
        assert_eq!(
            reencoded, original_interleaved,
            "round-trip failed for burst {hex_burst}"
        );
    }
}

#[test]
fn bptc_decode_bm_capture_yields_known_lc_bytes() {
    let captured =
        hex::decode("018b0aec1234093072c00500446dff57d75df5de327414f832a00ac008c12f82b3")
            .unwrap();
    let burst: [u8; DMR_DATA_SIZE] = captured.try_into().unwrap();
    let interleaved = extract_burst_interleaved(&burst);
    let data_bits = bptc_decode(&interleaved);

    let mut bytes = [0u8; 12];
    for (i, byte) in bytes.iter_mut().enumerate() {
        for bit in 0..8 {
            *byte |= (data_bits[i * 8 + bit] & 1) << (7 - bit);
        }
    }
    assert_eq!(
        &bytes[..9],
        &[0x00, 0x00, 0x00, 0x00, 0x00, 0x5B, 0x30, 0x15, 0x86]
    );
    assert_eq!(&bytes[9..12], &[0x28, 0x0A, 0x75]);
}

#[test]
fn bptc_encode_matches_dmrpy_data_head() {
    let captured =
        hex::decode("2B6004101F842DD00DF07D41046DFF57D75DF5DE30152E2070B20F803F88C695E2")
            .unwrap();
    let data_head: [u8; DMR_DATA_SIZE] = captured.try_into().unwrap();
    let interleaved = extract_burst_interleaved(&data_head);
    let bits = bptc_decode(&interleaved);

    let mut lc_bytes = [0u8; 12];
    for (i, byte) in lc_bytes.iter_mut().enumerate() {
        for bit in 0..8 {
            *byte |= (bits[i * 8 + bit] & 1) << (7 - bit);
        }
    }
    assert_eq!(
        &lc_bytes[..9],
        &[0x00, 0x10, 0x20, 0x00, 0x0C, 0x30, 0x2F, 0x9B, 0xE5],
        "data_head LC body mismatch vs dmrpy"
    );
    let reencoded = bptc_encode(&bits);
    assert_eq!(
        reencoded, interleaved,
        "bptc_encode did not match dmrpy data_head wire"
    );
}

#[test]
fn bptc_encode_zeros() {
    let data = [0u8; DATA_BITS];
    let encoded = bptc_encode(&data);
    assert!(encoded.iter().all(|&b| b == 0));
}

#[test]
fn bptc_interleave_formula_matches_spec() {
    const SAMPLES: &[(usize, usize)] = &[
        (0, 0),     // R(3) - first row
        (1, 181),   // R(2)
        (4, 136),   // I(95) - first data bit
        (11, 31),   // I(88) - end of first row data
        (15, 167),  // H_R1(0) - end of row 0
        (16, 152),  // I(87) - start of row 1
        (131, 191), // I(0) - last data bit
        (132, 176), // H_R9(3)
        (135, 131), // H_R9(0) - last info row
        (136, 116), // H_C1(3) - first column parity
        (195, 15),  // H_C15(0) - last entry
    ];
    for &(index, expected) in SAMPLES {
        assert_eq!((index * 181) % BPTC_BITS, expected, "Index {index}");
    }
}

#[test]
fn bptc_data_positions_match_spec() {
    const SPEC_INDEX_FOR_I: &[(usize, usize)] = &[
        (95, 4),  // I(95) -> row 0 col 3 = Index 4
        (94, 5),  // I(94) -> row 0 col 4 = Index 5
        (88, 11), // I(88) -> row 0 col 10 = Index 11 (last of row 0 data)
        (87, 16), // I(87) -> row 1 col 0 = Index 16
        (77, 26), // I(77) -> row 1 col 10
        (76, 31), // I(76) -> row 2 col 0 = Index 31 (spec B.2)
        (0, 131), // I(0)  -> row 8 col 10 = last info bit
    ];
    for &(lc_bit, expected_pos) in SPEC_INDEX_FOR_I {
        let linear = 95 - lc_bit;
        assert_eq!(
            DATA_POSITIONS[linear], expected_pos,
            "I({lc_bit}) at linear {linear}"
        );
    }
}

#[test]
fn bptc_encode_nonzero() {
    let mut data = [0u8; DATA_BITS];
    data[0] = 1;
    let encoded = bptc_encode(&data);
    assert!(encoded.iter().any(|&b| b != 0));
}

#[test]
fn build_data_burst_length() {
    let lc = [0u8; DATA_BITS];
    let sync = [0u8; 6];
    let burst = build_data_burst(&lc, 1, 1, &sync);
    assert_eq!(burst.len(), DMR_DATA_SIZE);
}

#[test]
fn build_voice_lc_group() {
    let bits = build_voice_lc(true, 9, 12345, 1);
    for (i, &bit) in bits[2..8].iter().enumerate() {
        assert_eq!(bit, 0, "FLCO bit {}", i + 2);
    }
}

#[test]
fn build_voice_lc_private() {
    let bits = build_voice_lc(false, 12345, 67890, 1);
    assert_eq!(bits[6], 1);
    assert_eq!(bits[7], 1);
}

#[test]
fn slot_type_encode_length() {
    let bits = encode_slot_type(1, 1);
    assert_eq!(bits.len(), 20);
}

#[test]
fn compare_against_bm_capture() {
    let captured =
        hex::decode("018b0aec1234093072c00500446dff57d75df5de327414f832a00ac008c12f82b3")
            .unwrap();
    let sync = BS_DATA_SYNC;
    let lc = build_voice_lc(true, 91, 3151238, 1);
    let burst = build_data_burst(&lc, 1, 1, &sync);
    assert_eq!(
        burst[..],
        captured[..],
        "ours={} theirs={}",
        hex::encode(burst),
        hex::encode(&captured)
    );
}

#[test]
fn decode_voice_lc_burst_rs_corrects_single_byte_error() {
    let sync = BS_DATA_SYNC;
    let src_id = 3_151_238u32;
    let lc_bits = build_voice_lc(true, 91, src_id, 1);
    let mut corrupted = lc_bits;
    for b in &mut corrupted[48..56] {
        *b ^= 1;
    }
    let burst = build_data_burst(&corrupted, 1, 1, &sync);
    let decoded = decode_voice_lc_burst(&burst, 1).expect("BPTC decode");
    assert!(decoded.rs_corrected, "expected RS to correct single byte");
    assert_eq!(decoded.src_id, src_id, "RS correction produced wrong src");
    assert_eq!(decoded.dst_id, 91);
}

#[test]
fn every_single_flip_in_the_code_leaves_the_lc_readable() {
    let lc = build_voice_lc(false, 12345, 67890, 2);
    let burst = build_data_burst(&lc, 2, 5, &BS_DATA_SYNC);
    let clean = decode_voice_lc_burst(&burst, 2).expect("clean");
    assert_eq!((clean.src_id, clean.dst_id), (67890, 12345));
    assert_eq!(clean.rs_syndromes, [0, 0, 0]);
    assert_eq!(clean.bptc_corrected_bits, 0);
    for bit in 0..DMR_DATA_SIZE * 8 {
        let mut flipped = burst;
        flipped[bit / 8] ^= 0x80 >> (bit % 8);
        let lc = decode_voice_lc_burst(&flipped, 2).expect("one flip");
        assert_eq!((lc.src_id, lc.dst_id), (67890, 12345), "bit {bit}");
    }
}
