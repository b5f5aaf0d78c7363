//! Sync patterns and EMB fields.

use asl_dmr_bridge::fec::qr_16_7_decode;
use asl_dmr_bridge::sync::build_emb_section;

#[test]
fn emb_cc_zero_lcss_zero() {
    let emb = build_emb_section(0, 0, &[0; 4]);
    assert_eq!(emb[0], 0x00); // emb_hi
    assert_eq!(emb[5], 0x00); // emb_lo
    assert_eq!(&emb[1..5], &[0, 0, 0, 0]);
}

#[test]
fn emb_cc1_lcss0() {
    let emb = build_emb_section(1, 0, &[0; 4]);
    assert_eq!(emb[0], 0x11); // emb_hi
    assert_eq!(emb[5], 0xE2); // emb_lo
}

#[test]
fn emb_cc1_lcss1_matches_dmrpy() {
    let emb = build_emb_section(1, 1, &[0; 4]);
    assert_eq!(emb[0], 0x13);
    assert_eq!(emb[5], 0x91);
}

#[test]
fn emb_embeds_lc_bytes() {
    let lc = [0xAA, 0xBB, 0xCC, 0xDD];
    let emb = build_emb_section(0, 0, &lc);
    assert_eq!(&emb[1..5], &lc);
}

#[test]
fn emb_roundtrips_all_cc_and_lcss() {
    for cc in 0..16u8 {
        for lcss in 0..4u8 {
            let emb = build_emb_section(cc, lcss, &[0; 4]);
            let codeword = (u16::from(emb[0]) << 8) | u16::from(emb[5]);
            let info = qr_16_7_decode(codeword).expect("clean codeword decodes");
            assert_eq!(
                info,
                ((cc & 0x0F) << 3) | (lcss & 0x03),
                "cc={cc} lcss={lcss}"
            );
        }
    }
}

#[test]
fn emb_layout_and_distance() {
    let lc = [0x12, 0x34, 0x56, 0x78];
    let mut words: Vec<u16> = Vec::new();
    for cc in 0..16u8 {
        for lcss in 0..4u8 {
            let emb = build_emb_section(cc, lcss, &lc);
            let w = (u16::from(emb[0]) << 8) | u16::from(emb[5]);
            assert_eq!(w >> 12, u16::from(cc));
            assert_eq!((w >> 11) & 1, 0);
            assert_eq!((w >> 9) & 3, u16::from(lcss));
            assert_eq!(&emb[1..5], &lc);
            for other in &words {
                assert!((w ^ other).count_ones() >= 6, "cc={cc} lcss={lcss}");
            }
            words.push(w);
        }
    }
    assert_eq!(build_emb_section(8, 0, &lc)[0], 0x80);
    assert_eq!(build_emb_section(8, 0, &lc)[5], 0x4F);
    assert_eq!(build_emb_section(0x1F, 7, &lc), build_emb_section(0x0F, 3, &lc));
}

#[test]
fn emb_words_of_a_superframe() {
    // The EMBs of the four fragments of an LC, on color code 1.
    for (lcss, word) in [(1, 0x1391u16), (3, 0x1774), (2, 0x1507), (0, 0x11E2)] {
        let emb = build_emb_section(1, lcss, &[0; 4]);
        assert_eq!((u16::from(emb[0]) << 8) | u16::from(emb[5]), word);
    }
}
