//! Hamming, Golay and quadratic residue codes.

use asl_dmr_bridge::fec::{golay_20_8_decode, golay_20_8_parity, hamming_13_9_correct, hamming_13_9_parity, hamming_15_11_correct, hamming_15_11_parity, hamming_16_11_correct, hamming_16_11_parity, qr_16_7_decode, qr_16_7_encode, HammingError, LookupDecodeError};

#[test]
fn golay_zero() {
    assert_eq!(golay_20_8_parity(0), 0);
}

#[test]
fn golay_known_values() {
    assert_eq!(golay_20_8_parity(1), 0xB08E);
    assert_eq!(golay_20_8_parity(2), 0xE093);
}

#[test]
fn hamming_15_11_zero() {
    let d = [0u8; 11];
    assert_eq!(hamming_15_11_parity(&d), [0, 0, 0, 0]);
}

#[test]
fn hamming_15_11_all_ones() {
    let d = [1u8; 11];
    assert_eq!(hamming_15_11_parity(&d), [1, 1, 1, 1]);
}

#[test]
fn hamming_13_9_zero() {
    let d = [0u8; 9];
    assert_eq!(hamming_13_9_parity(&d), [0, 0, 0, 0]);
}

#[test]
fn hamming_13_9_all_ones() {
    let d = [1u8; 9];
    assert_eq!(hamming_13_9_parity(&d), [1, 0, 1, 1]);
}

#[test]
fn hamming_15_11_okdmrlib_vectors() {
    let d = [0, 1, 0, 1, 1, 0, 1, 0, 1, 1, 0];
    assert_eq!(hamming_15_11_parity(&d), [1, 0, 1, 1]);
}

#[test]
fn hamming_13_9_okdmrlib_vectors() {
    let cases: [(&[u8; 9], &[u8; 4]); 3] = [
        (&[0, 1, 0, 1, 0, 1, 0, 1, 0], &[1, 0, 0, 1]),
        (&[0, 1, 1, 1, 0, 0, 1, 0, 1], &[1, 1, 0, 0]),
        (&[1, 1, 1, 1, 0, 0, 1, 0, 0], &[0, 0, 0, 0]),
    ];
    for (data, expected) in cases {
        assert_eq!(hamming_13_9_parity(data), *expected);
    }
}

#[test]
fn hamming_16_11_zero() {
    let d = [0u8; 11];
    assert_eq!(hamming_16_11_parity(&d), [0; 5]);
}

#[test]
fn hamming_16_11_all_ones() {
    let d = [1u8; 11];
    assert_eq!(hamming_16_11_parity(&d), [1, 1, 1, 1, 1]);
}

#[test]
fn hamming_16_11_okdmrlib_vectors() {
    let cases: [(&[u8; 11], &[u8; 5]); 2] = [
        (&[1, 1, 0, 1, 0, 1, 1, 0, 1, 1, 0], &[1, 1, 1, 1, 1]),
        (&[1, 0, 1, 1, 0, 0, 0, 1, 1, 0, 0], &[1, 1, 1, 1, 1]),
    ];
    for (data, expected) in cases {
        assert_eq!(hamming_16_11_parity(data), *expected);
    }
}

/// Build a Hamming(15,11,3) codeword from 11 data bits by
/// appending the computed parity.
fn make_15_11_codeword(data: [u8; 11]) -> [u8; 15] {
    let p = hamming_15_11_parity(&data);
    let mut cw = [0u8; 15];
    cw[..11].copy_from_slice(&data);
    cw[11..].copy_from_slice(&p);
    cw
}

fn make_13_9_codeword(data: [u8; 9]) -> [u8; 13] {
    let p = hamming_13_9_parity(&data);
    let mut cw = [0u8; 13];
    cw[..9].copy_from_slice(&data);
    cw[9..].copy_from_slice(&p);
    cw
}

#[test]
fn hamming_15_11_correct_clean_passthrough() {
    let cw = make_15_11_codeword([1, 0, 1, 1, 0, 1, 0, 0, 1, 1, 0]);
    let mut c = cw;
    hamming_15_11_correct(&mut c);
    assert_eq!(c, cw, "clean codeword modified by correct");
}

#[test]
fn hamming_15_11_correct_flips_every_bit() {
    let base = make_15_11_codeword([1, 1, 0, 1, 0, 1, 1, 0, 1, 1, 0]);
    for pos in 0..15 {
        let mut cw = base;
        cw[pos] ^= 1;
        hamming_15_11_correct(&mut cw);
        assert_eq!(cw, base, "did not correct bit {pos}");
    }
}

#[test]
fn hamming_13_9_correct_clean_passthrough() {
    let cw = make_13_9_codeword([0, 1, 0, 1, 0, 1, 0, 1, 0]);
    let mut c = cw;
    hamming_13_9_correct(&mut c).unwrap();
    assert_eq!(c, cw);
}

#[test]
fn hamming_13_9_correct_flips_every_bit() {
    let base = make_13_9_codeword([1, 1, 1, 1, 0, 0, 1, 0, 0]);
    for pos in 0..13 {
        let mut cw = base;
        cw[pos] ^= 1;
        hamming_13_9_correct(&mut cw).unwrap();
        assert_eq!(cw, base, "did not correct bit {pos}");
    }
}

fn make_16_11_codeword(data: [u8; 11]) -> [u8; 16] {
    let p = hamming_16_11_parity(&data);
    let mut cw = [0u8; 16];
    cw[..11].copy_from_slice(&data);
    cw[11..].copy_from_slice(&p);
    cw
}

#[test]
fn hamming_16_11_correct_clean_passthrough() {
    let cw = make_16_11_codeword([1, 1, 0, 1, 0, 1, 1, 0, 1, 1, 0]);
    let mut c = cw;
    hamming_16_11_correct(&mut c).unwrap();
    assert_eq!(c, cw);
}

#[test]
fn hamming_16_11_correct_flips_every_bit() {
    let base = make_16_11_codeword([1, 0, 1, 1, 0, 0, 0, 1, 1, 0, 0]);
    for pos in 0..16 {
        let mut cw = base;
        cw[pos] ^= 1;
        hamming_16_11_correct(&mut cw).unwrap();
        assert_eq!(cw, base, "did not correct bit {pos}");
    }
}

#[test]
fn hamming_16_11_correct_detects_double_errors() {
    let base = make_16_11_codeword([0, 1, 1, 0, 1, 0, 0, 1, 1, 0, 1]);
    let mut detected = 0usize;
    for i in 0..16 {
        for j in (i + 1)..16 {
            let mut cw = base;
            cw[i] ^= 1;
            cw[j] ^= 1;
            if hamming_16_11_correct(&mut cw).is_err() {
                detected += 1;
            }
        }
    }
    assert_eq!(detected, 120, "expected all double-errors detected");
}

#[test]
fn hamming_13_9_correct_detects_uncorrectable() {
    let mut cw = make_13_9_codeword([1, 0, 0, 1, 0, 1, 1, 0, 1]);
    cw[9] ^= 1; // flip p0
    cw[12] ^= 1; // flip p3
    assert_eq!(hamming_13_9_correct(&mut cw), Err(HammingError));

    let mut cw = make_13_9_codeword([0, 1, 1, 0, 1, 0, 0, 1, 1]);
    cw[9] ^= 1; // flip p0
    cw[10] ^= 1; // flip p1
    cw[12] ^= 1; // flip p3
    assert_eq!(hamming_13_9_correct(&mut cw), Err(HammingError));
}

#[test]
fn qr_zero() {
    assert_eq!(qr_16_7_encode(0), 0x0000);
}

#[test]
fn qr_known_values() {
    assert_eq!(qr_16_7_encode(1), 0x0273);
    assert_eq!(qr_16_7_encode(0x7F), 0xFC87);
}

/// Pack 8 info bits (MSB-first) + 12 parity bits (low byte
/// MSB-first then high nibble MSB-first) into a 20-bit array,
/// matching what bptc.rs::encode_slot_type emits.
fn encode_golay_20_8(info: u8) -> [u8; 20] {
    let parity = golay_20_8_parity(info);
    let mut bits = [0u8; 20];
    for i in 0..8 {
        bits[i] = (info >> (7 - i)) & 1;
    }
    let lo = (parity & 0xFF) as u8;
    let hi = ((parity >> 8) & 0xFF) as u8;
    for i in 0..8 {
        bits[8 + i] = (lo >> (7 - i)) & 1;
    }
    for i in 0..4 {
        bits[16 + i] = (hi >> (7 - i)) & 1;
    }
    bits
}

#[test]
fn golay_20_8_round_trip_all_inputs() {
    for info in 0..=255u8 {
        let bits = encode_golay_20_8(info);
        assert_eq!(golay_20_8_decode(&bits), Ok(info));
    }
}

#[test]
fn golay_20_8_decode_detects_single_bit_flip() {
    let info = 0xA5;
    let base = encode_golay_20_8(info);
    for pos in 0..20 {
        let mut bits = base;
        bits[pos] ^= 1;
        assert_eq!(
            golay_20_8_decode(&bits),
            Err(LookupDecodeError),
            "bit flip at {pos} not detected"
        );
    }
}

#[test]
fn qr_16_7_round_trip_all_inputs() {
    for info in 0..=0x7Fu8 {
        let cw = qr_16_7_encode(info);
        assert_eq!(qr_16_7_decode(cw), Ok(info));
    }
}

#[test]
fn qr_16_7_decode_detects_random_codeword() {
    let mut cw = qr_16_7_encode(0x42);
    cw ^= 1; // flip LSB
    assert_eq!(qr_16_7_decode(cw), Err(LookupDecodeError));
}

/// Parity of every byte.
const GOLAY_PARITIES: [u16; 256] = [
    0x0000, 0xB08E, 0xE093, 0x501D, 0x70A9, 0xC027, 0x903A, 0x20B4,
    0x60DC, 0xD052, 0x804F, 0x30C1, 0x1075, 0xA0FB, 0xF0E6, 0x4068,
    0x7036, 0xC0B8, 0x90A5, 0x202B, 0x009F, 0xB011, 0xE00C, 0x5082,
    0x10EA, 0xA064, 0xF079, 0x40F7, 0x6043, 0xD0CD, 0x80D0, 0x305E,
    0xD06C, 0x60E2, 0x30FF, 0x8071, 0xA0C5, 0x104B, 0x4056, 0xF0D8,
    0xB0B0, 0x003E, 0x5023, 0xE0AD, 0xC019, 0x7097, 0x208A, 0x9004,
    0xA05A, 0x10D4, 0x40C9, 0xF047, 0xD0F3, 0x607D, 0x3060, 0x80EE,
    0xC086, 0x7008, 0x2015, 0x909B, 0xB02F, 0x00A1, 0x50BC, 0xE032,
    0x90D9, 0x2057, 0x704A, 0xC0C4, 0xE070, 0x50FE, 0x00E3, 0xB06D,
    0xF005, 0x408B, 0x1096, 0xA018, 0x80AC, 0x3022, 0x603F, 0xD0B1,
    0xE0EF, 0x5061, 0x007C, 0xB0F2, 0x9046, 0x20C8, 0x70D5, 0xC05B,
    0x8033, 0x30BD, 0x60A0, 0xD02E, 0xF09A, 0x4014, 0x1009, 0xA087,
    0x40B5, 0xF03B, 0xA026, 0x10A8, 0x301C, 0x8092, 0xD08F, 0x6001,
    0x2069, 0x90E7, 0xC0FA, 0x7074, 0x50C0, 0xE04E, 0xB053, 0x00DD,
    0x3083, 0x800D, 0xD010, 0x609E, 0x402A, 0xF0A4, 0xA0B9, 0x1037,
    0x505F, 0xE0D1, 0xB0CC, 0x0042, 0x20F6, 0x9078, 0xC065, 0x70EB,
    0xA03D, 0x10B3, 0x40AE, 0xF020, 0xD094, 0x601A, 0x3007, 0x8089,
    0xC0E1, 0x706F, 0x2072, 0x90FC, 0xB048, 0x00C6, 0x50DB, 0xE055,
    0xD00B, 0x6085, 0x3098, 0x8016, 0xA0A2, 0x102C, 0x4031, 0xF0BF,
    0xB0D7, 0x0059, 0x5044, 0xE0CA, 0xC07E, 0x70F0, 0x20ED, 0x9063,
    0x7051, 0xC0DF, 0x90C2, 0x204C, 0x00F8, 0xB076, 0xE06B, 0x50E5,
    0x108D, 0xA003, 0xF01E, 0x4090, 0x6024, 0xD0AA, 0x80B7, 0x3039,
    0x0067, 0xB0E9, 0xE0F4, 0x507A, 0x70CE, 0xC040, 0x905D, 0x20D3,
    0x60BB, 0xD035, 0x8028, 0x30A6, 0x1012, 0xA09C, 0xF081, 0x400F,
    0x30E4, 0x806A, 0xD077, 0x60F9, 0x404D, 0xF0C3, 0xA0DE, 0x1050,
    0x5038, 0xE0B6, 0xB0AB, 0x0025, 0x2091, 0x901F, 0xC002, 0x708C,
    0x40D2, 0xF05C, 0xA041, 0x10CF, 0x307B, 0x80F5, 0xD0E8, 0x6066,
    0x200E, 0x9080, 0xC09D, 0x7013, 0x50A7, 0xE029, 0xB034, 0x00BA,
    0xE088, 0x5006, 0x001B, 0xB095, 0x9021, 0x20AF, 0x70B2, 0xC03C,
    0x8054, 0x30DA, 0x60C7, 0xD049, 0xF0FD, 0x4073, 0x106E, 0xA0E0,
    0x90BE, 0x2030, 0x702D, 0xC0A3, 0xE017, 0x5099, 0x0084, 0xB00A,
    0xF062, 0x40EC, 0x10F1, 0xA07F, 0x80CB, 0x3045, 0x6058, 0xD0D6,
];

/// Codeword of every seven-bit value.
const QR_CODEWORDS: [u16; 128] = [
    0x0000, 0x0273, 0x04E5, 0x0696, 0x09C9, 0x0BBA, 0x0D2C, 0x0F5F,
    0x11E2, 0x1391, 0x1507, 0x1774, 0x182B, 0x1A58, 0x1CCE, 0x1EBD,
    0x21B7, 0x23C4, 0x2552, 0x2721, 0x287E, 0x2A0D, 0x2C9B, 0x2EE8,
    0x3055, 0x3226, 0x34B0, 0x36C3, 0x399C, 0x3BEF, 0x3D79, 0x3F0A,
    0x411E, 0x436D, 0x45FB, 0x4788, 0x48D7, 0x4AA4, 0x4C32, 0x4E41,
    0x50FC, 0x528F, 0x5419, 0x566A, 0x5935, 0x5B46, 0x5DD0, 0x5FA3,
    0x60A9, 0x62DA, 0x644C, 0x663F, 0x6960, 0x6B13, 0x6D85, 0x6FF6,
    0x714B, 0x7338, 0x75AE, 0x77DD, 0x7882, 0x7AF1, 0x7C67, 0x7E14,
    0x804F, 0x823C, 0x84AA, 0x86D9, 0x8986, 0x8BF5, 0x8D63, 0x8F10,
    0x91AD, 0x93DE, 0x9548, 0x973B, 0x9864, 0x9A17, 0x9C81, 0x9EF2,
    0xA1F8, 0xA38B, 0xA51D, 0xA76E, 0xA831, 0xAA42, 0xACD4, 0xAEA7,
    0xB01A, 0xB269, 0xB4FF, 0xB68C, 0xB9D3, 0xBBA0, 0xBD36, 0xBF45,
    0xC151, 0xC322, 0xC5B4, 0xC7C7, 0xC898, 0xCAEB, 0xCC7D, 0xCE0E,
    0xD0B3, 0xD2C0, 0xD456, 0xD625, 0xD97A, 0xDB09, 0xDD9F, 0xDFEC,
    0xE0E6, 0xE295, 0xE403, 0xE670, 0xE92F, 0xEB5C, 0xEDCA, 0xEFB9,
    0xF104, 0xF377, 0xF5E1, 0xF792, 0xF8CD, 0xFABE, 0xFC28, 0xFC87,
];

#[test]
fn golay_parity_of_every_byte() {
    for (data, &parity) in GOLAY_PARITIES.iter().enumerate() {
        assert_eq!(golay_20_8_parity(data as u8), parity, "{data}");
    }
}

#[test]
fn qr_codeword_of_every_value() {
    for (data, &codeword) in QR_CODEWORDS.iter().enumerate() {
        assert_eq!(qr_16_7_encode(data as u8), codeword, "{data}");
        assert_eq!(qr_16_7_encode(data as u8 | 0x80), codeword);
    }
}

#[test]
fn golay_detects_three_flips() {
    let base = encode_golay_20_8(0x3C);
    for i in 0..20 {
        for j in 0..i {
            for k in 0..j {
                let mut bits = base;
                bits[i] ^= 1;
                bits[j] ^= 1;
                bits[k] ^= 1;
                assert_eq!(golay_20_8_decode(&bits), Err(LookupDecodeError));
            }
        }
    }
}

#[test]
fn qr_detects_up_to_three_flips() {
    for (data, &codeword) in QR_CODEWORDS.iter().enumerate() {
        for flips in 1..=0xFFFFu16 {
            if flips.count_ones() <= 3 {
                assert!(qr_16_7_decode(codeword ^ flips).is_err(), "{data} {flips:#x}");
            }
        }
    }
}

#[test]
fn qr_codewords_are_six_bits_apart() {
    let near: [usize; 8] = [54, 60, 62, 78, 87, 110, 114, 124];
    for a in 0..128usize {
        for b in 0..a {
            let d = (qr_16_7_encode(a as u8) ^ qr_16_7_encode(b as u8)).count_ones();
            if a == 127 && near.contains(&b) {
                assert_eq!(d, 4, "{a} {b}");
            } else {
                assert!(d >= 6, "{a} {b}");
            }
        }
    }
}

#[test]
fn qr_codeword_starts_with_its_data() {
    for data in 0..127u8 {
        assert_eq!(qr_16_7_encode(data) >> 9, u16::from(data));
    }
}
