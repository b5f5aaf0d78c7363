//! Sync patterns and the EMB section of voice bursts.

use vstd::prelude::*;

use crate::fec::{law_qr_distance, law_qr_round_trip, law_qr_systematic, ones, qr_16_7_encode, qr_word};

verus! {

/// Sync pattern of voice burst A.
pub const BS_VOICE_SYNC: [u8; 6] = [0x75, 0x5F, 0xD7, 0xDF, 0x75, 0xF7];

/// Sync pattern of voice headers and terminators.
pub const BS_DATA_SYNC: [u8; 6] = [0xDF, 0xF5, 0x7D, 0x75, 0xDF, 0x5D];

/// The seven bits of an EMB: color code, a zero, LCSS.
pub open spec fn emb_info(color_code: u8, lcss: u8) -> u8 {
    (8 * (color_code % 16) + lcss % 4) as u8
}

/// The EMB codeword that a section carries in its first and last byte.
pub open spec fn emb_word(r: Seq<u8>) -> int {
    0x100 * r[0] + r[5]
}

/// `r` is the EMB codeword's high byte, the four bytes of LC, its low byte. The
/// codeword is four bits of color code, a zero, two bits of LCSS and nine of parity.
pub open spec fn is_emb_section(r: Seq<u8>, color_code: u8, lcss: u8, lc: Seq<u8>) -> bool {
    &&& r.len() == 6
    &&& emb_word(r) == qr_word(emb_info(color_code, lcss))
    &&& emb_word(r) / 0x1000 == color_code % 16
    &&& emb_word(r) / 0x800 % 2 == 0
    &&& emb_word(r) / 0x200 % 4 == lcss % 4
    &&& r.subrange(1, 5) == lc
}

/// The middle section of voice bursts B to F.
pub fn build_emb_section(color_code: u8, lcss: u8, embedded_lc: &[u8; 4]) -> (r: [u8; 6])
    ensures
        is_emb_section(r@, color_code, lcss, embedded_lc@),
{
    let codeword: u16 = qr_16_7_encode(8 * (color_code % 16) + lcss % 4);
    let r: [u8; 6] = [
        (codeword / 0x100) as u8,
        embedded_lc[0],
        embedded_lc[1],
        embedded_lc[2],
        embedded_lc[3],
        (codeword % 0x100) as u8,
    ];
    assert(r@.subrange(1, 5) =~= embedded_lc@);
    proof {
        law_qr_systematic(emb_info(color_code, lcss));
    }
    r
}

/// The middle section of a burst without embedded LC.
pub fn build_null_emb(color_code: u8) -> (r: [u8; 6])
    ensures
        is_emb_section(r@, color_code, 0, seq![0u8, 0u8, 0u8, 0u8]),
{
    let none: [u8; 4] = [0, 0, 0, 0];
    assert(none@ =~= seq![0u8, 0u8, 0u8, 0u8]);
    build_emb_section(color_code, 0, &none)
}

/// Law: reading the EMB codeword of a section gives back its seven bits,
/// whatever the color code and LCSS.
pub proof fn law_emb_round_trip(r: Seq<u8>, color_code: u8, lcss: u8, lc: Seq<u8>, info: u8)
    requires
        is_emb_section(r, color_code, lcss, lc),
        info < 0x80,
        qr_word(info) == emb_word(r),
    ensures
        info == emb_info(color_code, lcss),
{
    law_qr_round_trip(emb_info(color_code, lcss), info);
}

/// Law: the EMB codewords of two sections with another color code or LCSS differ
/// in at least six bits.
pub proof fn law_emb_distance(
    r: Seq<u8>,
    color_code: u8,
    lcss: u8,
    lc: Seq<u8>,
    s: Seq<u8>,
    other_code: u8,
    other_lcss: u8,
    other_lc: Seq<u8>,
)
    requires
        is_emb_section(r, color_code, lcss, lc),
        is_emb_section(s, other_code, other_lcss, other_lc),
        color_code % 16 != other_code % 16 || lcss % 4 != other_lcss % 4,
    ensures
        ones((emb_word(r) as u16) ^ (emb_word(s) as u16)) >= 6,
{
    law_qr_distance(emb_info(color_code, lcss), emb_info(other_code, other_lcss));
}

/// Law: the bytes of an EMB section: the first begins with the color code, a zero and
/// the LCSS, and the four in the middle are the fragment.
pub proof fn law_emb_bytes(r: Seq<u8>, color_code: u8, lcss: u8, lc: Seq<u8>)
    requires
        is_emb_section(r, color_code, lcss, lc),
    ensures
        r.len() == 6,
        r[0] / 2 == 8 * (color_code % 16) + lcss % 4,
        lc.len() == 4,
        forall|i: int| 0 <= i < 4 ==> #[trigger] r[1 + i] == lc[i],
{
    let w = emb_word(r);
    assert(w / 0x200 == r[0] / 2);
    assert(w / 0x200 == 8 * (w / 0x1000) + 4 * (w / 0x800 % 2) + w / 0x200 % 4) by {
        assert(w / 0x800 == (w / 0x200) / 4);
        assert(w / 0x1000 == (w / 0x800) / 2);
    }
    assert forall|i: int| 0 <= i < 4 implies #[trigger] r[1 + i] == lc[i] by {
        assert(r.subrange(1, 5)[i] == lc[i]);
    }
}

} // verus!
