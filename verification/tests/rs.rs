//! The Reed-Solomon code of link control.

use asl_dmr_bridge::rs::{
    rs_12_9_correct, rs_12_9_fec, rs_12_9_syndromes, LC_HEADER_MASK, LC_TERMINATOR_MASK,
};

const LC: [u8; 9] = [0x00, 0x00, 0x00, 0x00, 0x00, 0x5B, 0x30, 0x15, 0x86];

fn codeword(lc: &[u8; 9]) -> [u8; 12] {
    let parity = rs_12_9_fec(lc, &[0, 0, 0]);
    let mut word = [0u8; 12];
    word[..9].copy_from_slice(lc);
    word[9..].copy_from_slice(&parity);
    word
}

#[test]
fn known_lc_parity() {
    assert_eq!(rs_12_9_fec(&LC, &LC_HEADER_MASK), [0x28, 0x0A, 0x75]);
}

#[test]
fn masks_are_added_to_the_parity() {
    let plain = rs_12_9_fec(&LC, &[0, 0, 0]);
    let masked = rs_12_9_fec(&LC, &LC_TERMINATOR_MASK);
    for i in 0..3 {
        assert_eq!(masked[i], plain[i] ^ LC_TERMINATOR_MASK[i]);
    }
}

#[test]
fn clean_words_have_zero_syndromes() {
    let word = codeword(&LC);
    assert_eq!(rs_12_9_syndromes(&word), [0, 0, 0]);
    let mut same = word;
    assert!(rs_12_9_correct(&mut same));
    assert_eq!(same, word);
}

#[test]
fn any_single_byte_error_is_corrected() {
    let word = codeword(&LC);
    for at in 0..12 {
        for error in 1..=255u8 {
            let mut received = word;
            received[at] ^= error;
            assert_ne!(rs_12_9_syndromes(&received), [0, 0, 0]);
            assert!(rs_12_9_correct(&mut received));
            assert_eq!(received, word, "byte {at}, error {error:#x}");
        }
    }
}

#[test]
fn double_byte_errors_leave_the_word_alone_or_reach_another() {
    let word = codeword(&LC);
    let mut refused = 0;
    for error in 1..=255u8 {
        let mut received = word;
        received[1] ^= error;
        received[7] ^= 0x11;
        let before = received;
        if rs_12_9_correct(&mut received) {
            assert_eq!(rs_12_9_syndromes(&received), [0, 0, 0]);
        } else {
            assert_eq!(received, before);
            refused += 1;
        }
    }
    assert!(refused > 200, "refused {refused}");
}
