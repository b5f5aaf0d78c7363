//! Bursts as dibits.

use asl_dmr_bridge::dmrd::DMR_DATA_SIZE;
use asl_dmr_bridge::frame::{assemble_burst, burst_to_dibits, byte_to_dibits, extract_ambe, extract_sync_section, pack_dibits, unpack_dibits, BURST_DIBITS, DIBITS_PER_CODEWORD};
use asl_dmr_bridge::types::{AmbeFrame, AMBE_FRAME_SIZE};

#[test]
fn burst_dibits_length() {
    let data = [0u8; DMR_DATA_SIZE];
    let dibits = burst_to_dibits(&data);
    assert_eq!(dibits.len(), BURST_DIBITS);
}

#[test]
fn byte_to_dibits_known() {
    assert_eq!(byte_to_dibits(0xA5), [2, 2, 1, 1]);
    assert_eq!(byte_to_dibits(0xFF), [3, 3, 3, 3]);
    assert_eq!(byte_to_dibits(0x00), [0, 0, 0, 0]);
}

#[test]
fn extract_ambe_does_not_panic() {
    let data = [0u8; DMR_DATA_SIZE];
    let frames = extract_ambe(&data);
    assert_eq!(frames.len(), 3);
    for frame in &frames {
        assert_eq!(frame, &[0u8; AMBE_FRAME_SIZE]);
    }
}

#[test]
fn extract_ambe_nonzero_input() {
    let mut data = [0u8; DMR_DATA_SIZE];
    for (i, b) in data.iter_mut().enumerate() {
        *b = (i as u8).wrapping_mul(0x37);
    }
    let frames = extract_ambe(&data);
    let any_nonzero = frames.iter().any(|f: &AmbeFrame| f.iter().any(|&b| b != 0));
    assert!(any_nonzero, "non-zero input should produce non-zero output");
}

#[test]
fn extract_ignores_sync_bytes() {
    let mut data = [0u8; DMR_DATA_SIZE];
    data[13] = 0x0F;
    for b in &mut data[14..=18] {
        *b = 0xFF;
    }
    data[19] = 0xF0;

    let frames = extract_ambe(&data);
    for (i, frame) in frames.iter().enumerate() {
        assert_eq!(
            frame, &[0u8; AMBE_FRAME_SIZE],
            "frame {i} picked up SYNC bits"
        );
    }
}

#[test]
fn extract_sync_section_inverts_assemble() {
    let cw = [
        [0x12u8; AMBE_FRAME_SIZE],
        [0x34u8; AMBE_FRAME_SIZE],
        [0x56u8; AMBE_FRAME_SIZE],
    ];
    let sync = [0xDE, 0xAD, 0xBE, 0xEF, 0xCA, 0xFE];
    let burst = assemble_burst(&cw, &sync);
    assert_eq!(extract_sync_section(&burst), sync);
}

#[test]
fn pack_unpack_dibits_roundtrip() {
    let mut dibits = [0u8; DIBITS_PER_CODEWORD];
    for (i, d) in dibits.iter_mut().enumerate() {
        *d = (i % 4) as u8;
    }
    let frame = pack_dibits(&dibits);
    let back = unpack_dibits(&frame);
    assert_eq!(back, dibits);
}

#[test]
fn pack_unpack_dibits_all_zero() {
    let dibits = [0u8; DIBITS_PER_CODEWORD];
    let frame = pack_dibits(&dibits);
    assert_eq!(frame, [0u8; AMBE_FRAME_SIZE]);
    assert_eq!(unpack_dibits(&frame), dibits);
}

#[test]
fn pack_unpack_dibits_all_ones() {
    let dibits = [0x03u8; DIBITS_PER_CODEWORD];
    let frame = pack_dibits(&dibits);
    assert_eq!(frame, [0xFFu8; AMBE_FRAME_SIZE]);
    assert_eq!(unpack_dibits(&frame), dibits);
}

#[test]
fn pack_unpack_dibits_exhaustive_per_position() {
    for i in 0..DIBITS_PER_CODEWORD {
        for v in 0..4u8 {
            let mut dibits = [0u8; DIBITS_PER_CODEWORD];
            dibits[i] = v;
            let back = unpack_dibits(&pack_dibits(&dibits));
            assert_eq!(back, dibits, "position {i} value {v}");
        }
    }
}

#[test]
fn pack_dibits_masks_out_of_range_input() {
    let mut dibits = [0u8; DIBITS_PER_CODEWORD];
    dibits[0] = 0xFF;
    let frame = pack_dibits(&dibits);
    assert_eq!(frame[0], 0b1100_0000);
    for b in &frame[1..] {
        assert_eq!(*b, 0, "bleed into later bytes");
    }
}

/// Advances a 64-bit xorshift generator.
fn next_value(state: &mut u64) -> u64 {
    *state ^= *state << 13;
    *state ^= *state >> 7;
    *state ^= *state << 17;
    *state
}

#[test]
fn pack_unpack_dibits_roundtrip_property() {
    let mut state = 0x9E37_79B9_7F4A_7C15u64;
    for _ in 0..256 {
        let mut dibits = [0u8; DIBITS_PER_CODEWORD];
        for d in dibits.iter_mut() {
            *d = (next_value(&mut state) >> 32) as u8 & 3;
        }
        let packed = pack_dibits(&dibits);
        assert_eq!(unpack_dibits(&packed), dibits);
    }
}

#[test]
fn assemble_extract_roundtrip_property() {
    let mut state = 0xD1B5_4A32_D192_ED03u64;
    for _ in 0..256 {
        let mut codewords = [[0u8; AMBE_FRAME_SIZE]; 3];
        for b in codewords.iter_mut().flatten() {
            *b = (next_value(&mut state) >> 32) as u8;
        }
        let mut sync = [0u8; 6];
        for b in sync.iter_mut() {
            *b = (next_value(&mut state) >> 32) as u8;
        }
        let burst = assemble_burst(&codewords, &sync);
        assert_eq!(extract_ambe(&burst), codewords);
    }
}

#[test]
fn assemble_extract_roundtrip() {
    let codewords: [AmbeFrame; 3] = [
        [0xA5, 0x5A, 0x33, 0xCC, 0x0F, 0xF0, 0x3C, 0xC3, 0x5A],
        [0x12, 0x34, 0x56, 0x78, 0x9A, 0xBC, 0xDE, 0xF0, 0x11],
        [0xFF, 0x00, 0xAA, 0x55, 0xCC, 0x33, 0x66, 0x99, 0x01],
    ];
    let sync = [0x75, 0x5F, 0xD7, 0xDF, 0x75, 0xF7];
    let burst = assemble_burst(&codewords, &sync);
    let extracted = extract_ambe(&burst);
    assert_eq!(extracted, codewords);
}

#[test]
fn assemble_preserves_sync() {
    let codewords = [[0u8; AMBE_FRAME_SIZE]; 3];
    let sync = [0x75, 0x5F, 0xD7, 0xDF, 0x75, 0xF7];
    let burst = assemble_burst(&codewords, &sync);
    let dibits = burst_to_dibits(&burst);
    let mut sync_bytes = [0u8; 6];
    for (i, byte) in sync_bytes.iter_mut().enumerate() {
        *byte = (dibits[54 + i * 4] << 6)
            | (dibits[54 + i * 4 + 1] << 4)
            | (dibits[54 + i * 4 + 2] << 2)
            | dibits[54 + i * 4 + 3];
    }
    assert_eq!(sync_bytes, sync);
}
