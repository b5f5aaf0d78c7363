//! Forward error correction of the short burst fields.
//!
//! Golay(20,8) protects the slot type, QR(16,7) the EMB field, Hamming(15,11)
//! and Hamming(13,9) the rows and columns of BPTC(196,96), Hamming(16,11) the
//! rows of the embedded LC block.
//!
//! Bits of the Hamming codes are held one to a `u8`.  A syndrome is the number
//! whose binary digits say which parity bits disagree with the data bits; an
//! error in position `p` alone gives the syndrome `column_*(p)`.

use vstd::prelude::*;

use crate::bits::{
    bit_of, byte_at, byte_from, get_byte, lemma_bit_range, lemma_bits_spell_byte, lemma_byte_has_bits,
};

verus! {

// ---------------------------------------------------------------------------
// Bits in bytes
// ---------------------------------------------------------------------------

/// Every element is 0 or 1.
pub open spec fn all_bits(s: Seq<u8>) -> bool {
    forall|i: int| 0 <= i < s.len() ==> s[i] <= 1
}

/// `w` with position `p` flipped.
pub open spec fn flip(w: Seq<u8>, p: int) -> Seq<u8> {
    w.update(p, w[p] ^ 1)
}

/// Exclusive or of two bits.
pub broadcast proof fn lemma_xor_bits(a: u8, b: u8)
    requires
        a <= 1,
        b <= 1,
    ensures
        #[trigger] (a ^ b) == (if a == b {
            0u8
        } else {
            1u8
        }),
{
    assert(a <= 1 && b <= 1 ==> (a ^ b) == (if a == b {
        0u8
    } else {
        1u8
    })) by (bit_vector);
}

/// The low bit of a bit is the bit.
pub broadcast proof fn lemma_low_bit(a: u8)
    requires
        a <= 1,
    ensures
        #[trigger] (a & 1) == a,
{
    assert(a <= 1 ==> (a & 1) == a) by (bit_vector);
}

/// Flipping twice restores any byte.
pub proof fn lemma_flip_twice(a: u8)
    ensures
        (a ^ 1) ^ 1 == a,
{
    assert((a ^ 1) ^ 1 == a) by (bit_vector);
}

/// The word has more errors than the code can correct.
#[derive(Debug, Clone, Copy, PartialEq, Eq, Structural)]
pub struct HammingError;

/// The word is no codeword.
#[derive(Debug, Clone, Copy, PartialEq, Eq, Structural)]
pub struct LookupDecodeError;

// ---------------------------------------------------------------------------
// Hamming(15,11)
// ---------------------------------------------------------------------------

/// The four parity bits of 11 data bits.
pub open spec fn parity_15_11(d: Seq<u8>) -> Seq<u8> {
    seq![
        d[0] ^ d[1] ^ d[2] ^ d[3] ^ d[5] ^ d[7] ^ d[8],
        d[1] ^ d[2] ^ d[3] ^ d[4] ^ d[6] ^ d[8] ^ d[9],
        d[2] ^ d[3] ^ d[4] ^ d[5] ^ d[7] ^ d[9] ^ d[10],
        d[0] ^ d[1] ^ d[2] ^ d[4] ^ d[6] ^ d[7] ^ d[10],
    ]
}

/// 1 where a received parity bit disagrees with the computed one.
pub open spec fn mismatch(received: u8, computed: u8) -> int {
    if received & 1 != computed {
        1
    } else {
        0
    }
}

/// Which parity bits of the 15-bit word `w` disagree with its data bits.
#[verifier::opaque]
pub open spec fn syndrome_15_11(w: Seq<u8>) -> int {
    let p = parity_15_11(w);
    mismatch(w[11], p[0]) + 2 * mismatch(w[12], p[1]) + 4 * mismatch(w[13], p[2]) + 8 * mismatch(
        w[14],
        p[3],
    )
}

/// The syndrome of an error in position `p` alone.
pub open spec fn column_15_11(p: int) -> int {
    seq![9int, 11, 15, 7, 14, 5, 10, 13, 3, 6, 12, 1, 2, 4, 8][p]
}

/// `w` is data bits followed by their parity.
#[verifier::opaque]
pub open spec fn is_codeword_15_11(w: Seq<u8>) -> bool {
    w.len() == 15 && all_bits(w) && w.subrange(11, 15) == parity_15_11(w)
}

/// The position that a non-zero syndrome points at.
pub open spec fn position_15_11(s: int) -> int {
    choose|p: int| 0 <= p < 15 && #[trigger] column_15_11(p) == s
}

/// `w` with the position that its syndrome points at flipped.
#[verifier::opaque]
pub open spec fn corrected_15_11(w: Seq<u8>) -> Seq<u8> {
    if syndrome_15_11(w) == 0 {
        w
    } else {
        flip(w, position_15_11(syndrome_15_11(w)))
    }
}

const SYNDROME_TO_POS_15_11: [usize; 16] = [0, 11, 12, 8, 13, 5, 9, 3, 14, 0, 6, 1, 10, 7, 4, 2];

proof fn lemma_position_15_11(p: int)
    requires
        0 <= p < 15,
    ensures
        1 <= column_15_11(p) < 16,
        position_15_11(column_15_11(p)) == p,
        SYNDROME_TO_POS_15_11@[column_15_11(p)] == p,
{
    let q = position_15_11(column_15_11(p));
    assert(0 <= q < 15 && column_15_11(q) == column_15_11(p));
}

/// The parity bits of 11 data bits.
pub fn hamming_15_11_parity(d: &[u8; 11]) -> (r: [u8; 4])
    ensures
        r@ == parity_15_11(d@),
{
    let r: [u8; 4] = [
        d[0] ^ d[1] ^ d[2] ^ d[3] ^ d[5] ^ d[7] ^ d[8],
        d[1] ^ d[2] ^ d[3] ^ d[4] ^ d[6] ^ d[8] ^ d[9],
        d[2] ^ d[3] ^ d[4] ^ d[5] ^ d[7] ^ d[9] ^ d[10],
        d[0] ^ d[1] ^ d[2] ^ d[4] ^ d[6] ^ d[7] ^ d[10],
    ];
    assert(r@ =~= parity_15_11(d@));
    r
}

/// Flips the position that the syndrome points at, and says whether it did.
/// Every non-zero syndrome points at a position, so words with two or more
/// errors are changed into some other codeword.
pub fn hamming_15_11_correct(cw: &mut [u8; 15]) -> (r: bool)
    ensures
        r == (syndrome_15_11(old(cw)@) != 0),
        final(cw)@ == corrected_15_11(old(cw)@),
{
    proof {
        reveal(syndrome_15_11);
        reveal(corrected_15_11);
    }
    let d: [u8; 11] = [
        cw[0],
        cw[1],
        cw[2],
        cw[3],
        cw[4],
        cw[5],
        cw[6],
        cw[7],
        cw[8],
        cw[9],
        cw[10],
    ];
    let p = hamming_15_11_parity(&d);
    let mut s: usize = 0;
    if cw[11] & 1 != p[0] {
        s += 1;
    }
    if cw[12] & 1 != p[1] {
        s += 2;
    }
    if cw[13] & 1 != p[2] {
        s += 4;
    }
    if cw[14] & 1 != p[3] {
        s += 8;
    }
    assert(s == syndrome_15_11(cw@));
    if s == 0 {
        return false;
    }
    let pos: usize = SYNDROME_TO_POS_15_11[s];
    proof {
        assert(column_15_11(pos as int) == s);
        lemma_position_15_11(pos as int);
    }
    cw[pos] = cw[pos] ^ 1;
    true
}

proof fn lemma_parity_at_15_11(w: Seq<u8>)
    requires
        is_codeword_15_11(w),
    ensures
        forall|i: int| 0 <= i < 4 ==> w[11 + i] == #[trigger] parity_15_11(w)[i],
{
    reveal(is_codeword_15_11);
    assert forall|i: int| 0 <= i < 4 implies w[11 + i] == #[trigger] parity_15_11(w)[i] by {
        assert(w.subrange(11, 15)[i] == w[11 + i]);
    }
}

/// Law: a codeword has a zero syndrome and is left alone.
pub proof fn law_clean_15_11(w: Seq<u8>)
    requires
        is_codeword_15_11(w),
    ensures
        syndrome_15_11(w) == 0,
        corrected_15_11(w) == w,
{
    reveal(is_codeword_15_11);
    reveal(syndrome_15_11);
    reveal(corrected_15_11);
    broadcast use lemma_low_bit;

    lemma_parity_at_15_11(w);
}

proof fn lemma_flip_scalars_15_11(
    p: u8,
    b0: u8, b1: u8, b2: u8, b3: u8, b4: u8, b5: u8, b6: u8, b7: u8, b8: u8, b9: u8, b10: u8, b11: u8, b12: u8, b13: u8, b14: u8,
    c0: u8, c1: u8, c2: u8, c3: u8, c4: u8, c5: u8, c6: u8, c7: u8, c8: u8, c9: u8, c10: u8, c11: u8, c12: u8, c13: u8, c14: u8,
)
    by (bit_vector)
    requires
        b0 <= 1,
        b1 <= 1,
        b2 <= 1,
        b3 <= 1,
        b4 <= 1,
        b5 <= 1,
        b6 <= 1,
        b7 <= 1,
        b8 <= 1,
        b9 <= 1,
        b10 <= 1,
        b11 <= 1,
        b12 <= 1,
        b13 <= 1,
        b14 <= 1,
        b11 == b0 ^ b1 ^ b2 ^ b3 ^ b5 ^ b7 ^ b8,
        b12 == b1 ^ b2 ^ b3 ^ b4 ^ b6 ^ b8 ^ b9,
        b13 == b2 ^ b3 ^ b4 ^ b5 ^ b7 ^ b9 ^ b10,
        b14 == b0 ^ b1 ^ b2 ^ b4 ^ b6 ^ b7 ^ b10,
        p < 15,
        c0 == (if p == 0 { b0 ^ 1 } else { b0 }),
        c1 == (if p == 1 { b1 ^ 1 } else { b1 }),
        c2 == (if p == 2 { b2 ^ 1 } else { b2 }),
        c3 == (if p == 3 { b3 ^ 1 } else { b3 }),
        c4 == (if p == 4 { b4 ^ 1 } else { b4 }),
        c5 == (if p == 5 { b5 ^ 1 } else { b5 }),
        c6 == (if p == 6 { b6 ^ 1 } else { b6 }),
        c7 == (if p == 7 { b7 ^ 1 } else { b7 }),
        c8 == (if p == 8 { b8 ^ 1 } else { b8 }),
        c9 == (if p == 9 { b9 ^ 1 } else { b9 }),
        c10 == (if p == 10 { b10 ^ 1 } else { b10 }),
        c11 == (if p == 11 { b11 ^ 1 } else { b11 }),
        c12 == (if p == 12 { b12 ^ 1 } else { b12 }),
        c13 == (if p == 13 { b13 ^ 1 } else { b13 }),
        c14 == (if p == 14 { b14 ^ 1 } else { b14 }),
    ensures
        ((c11 & 1) != (c0 ^ c1 ^ c2 ^ c3 ^ c5 ^ c7 ^ c8)) == (p == 0 || p == 1 || p == 2 || p == 3 || p == 5 || p == 7 || p == 8 || p == 11),
        ((c12 & 1) != (c1 ^ c2 ^ c3 ^ c4 ^ c6 ^ c8 ^ c9)) == (p == 1 || p == 2 || p == 3 || p == 4 || p == 6 || p == 8 || p == 9 || p == 12),
        ((c13 & 1) != (c2 ^ c3 ^ c4 ^ c5 ^ c7 ^ c9 ^ c10)) == (p == 2 || p == 3 || p == 4 || p == 5 || p == 7 || p == 9 || p == 10 || p == 13),
        ((c14 & 1) != (c0 ^ c1 ^ c2 ^ c4 ^ c6 ^ c7 ^ c10)) == (p == 0 || p == 1 || p == 2 || p == 4 || p == 6 || p == 7 || p == 10 || p == 14),
{
}

/// Law: a single flipped bit, wherever it is, is found and flipped back.
pub proof fn law_single_error_15_11(w: Seq<u8>, p: int)
    requires
        is_codeword_15_11(w),
        0 <= p < 15,
    ensures
        syndrome_15_11(flip(w, p)) == column_15_11(p),
        corrected_15_11(flip(w, p)) == w,
{
    reveal(is_codeword_15_11);
    reveal(syndrome_15_11);
    reveal(corrected_15_11);
    let v = flip(w, p);
    lemma_parity_at_15_11(w);
    lemma_flip_scalars_15_11(
        p as u8,
        w[0], w[1], w[2], w[3], w[4], w[5], w[6], w[7], w[8], w[9], w[10], w[11], w[12], w[13], w[14],
        v[0], v[1], v[2], v[3], v[4], v[5], v[6], v[7], v[8], v[9], v[10], v[11], v[12], v[13], v[14],
    );
    lemma_position_15_11(p);
    lemma_flip_twice(w[p]);
    assert(corrected_15_11(v) =~= w);
}

// ---------------------------------------------------------------------------
// Hamming(13,9)
// ---------------------------------------------------------------------------

/// The four parity bits of 9 data bits.
pub open spec fn parity_13_9(d: Seq<u8>) -> Seq<u8> {
    seq![
        d[0] ^ d[1] ^ d[3] ^ d[5] ^ d[6],
        d[0] ^ d[1] ^ d[2] ^ d[4] ^ d[6] ^ d[7],
        d[0] ^ d[1] ^ d[2] ^ d[3] ^ d[5] ^ d[7] ^ d[8],
        d[0] ^ d[2] ^ d[4] ^ d[5] ^ d[8],
    ]
}

/// Which parity bits of the 13-bit word `w` disagree with its data bits.
#[verifier::opaque]
pub open spec fn syndrome_13_9(w: Seq<u8>) -> int {
    let p = parity_13_9(w);
    mismatch(w[9], p[0]) + 2 * mismatch(w[10], p[1]) + 4 * mismatch(w[11], p[2]) + 8 * mismatch(w[12], p[3])
}

/// The syndrome of an error in position `p` alone.
pub open spec fn column_13_9(p: int) -> int {
    seq![15int, 7, 14, 5, 10, 13, 3, 6, 12, 1, 2, 4, 8][p]
}

/// `w` is data bits followed by their parity.
#[verifier::opaque]
pub open spec fn is_codeword_13_9(w: Seq<u8>) -> bool {
    w.len() == 13 && all_bits(w) && w.subrange(9, 13) == parity_13_9(w)
}

/// A single error gives the syndrome `s`.
pub open spec fn points_somewhere_13_9(s: int) -> bool {
    exists|p: int| 0 <= p < 13 && #[trigger] column_13_9(p) == s
}

/// The position that such a syndrome points at.
pub open spec fn position_13_9(s: int) -> int {
    choose|p: int| 0 <= p < 13 && #[trigger] column_13_9(p) == s
}

/// The syndrome is zero or points at a position.
#[verifier::opaque]
pub open spec fn correctable_13_9(w: Seq<u8>) -> bool {
    syndrome_13_9(w) == 0 || points_somewhere_13_9(syndrome_13_9(w))
}

/// `w` with the position that its syndrome points at flipped.
#[verifier::opaque]
pub open spec fn corrected_13_9(w: Seq<u8>) -> Seq<u8> {
    if syndrome_13_9(w) == 0 {
        w
    } else {
        flip(w, position_13_9(syndrome_13_9(w)))
    }
}

const SYNDROME_TO_POS_13_9: [i8; 16] = [
    -1, 9, 10, 6, 11, 3, 7, 1, 12, -1, 4, -1, 8, 5, 2, 0,
];

proof fn lemma_position_13_9(p: int)
    requires
        0 <= p < 13,
    ensures
        1 <= column_13_9(p) < 16,
        points_somewhere_13_9(column_13_9(p)),
        position_13_9(column_13_9(p)) == p,
        SYNDROME_TO_POS_13_9@[column_13_9(p)] == p,
{
    let q = position_13_9(column_13_9(p));
    assert(0 <= q < 13 && column_13_9(q) == column_13_9(p));
}

/// The parity bits of 9 data bits.
pub fn hamming_13_9_parity(d: &[u8; 9]) -> (r: [u8; 4])
    ensures
        r@ == parity_13_9(d@),
{
    let r: [u8; 4] = [
        d[0] ^ d[1] ^ d[3] ^ d[5] ^ d[6],
        d[0] ^ d[1] ^ d[2] ^ d[4] ^ d[6] ^ d[7],
        d[0] ^ d[1] ^ d[2] ^ d[3] ^ d[5] ^ d[7] ^ d[8],
        d[0] ^ d[2] ^ d[4] ^ d[5] ^ d[8],
    ];
    assert(r@ =~= parity_13_9(d@));
    r
}

/// Flips the position that the syndrome points at, and says whether it did.
/// A syndrome that no single error gives is an error, and the word is kept.
pub fn hamming_13_9_correct(cw: &mut [u8; 13]) -> (r: Result<bool, HammingError>)
    ensures
        r is Ok <==> correctable_13_9(old(cw)@),
        r matches Ok(flipped) ==> flipped == (syndrome_13_9(old(cw)@) != 0),
        r is Ok ==> final(cw)@ == corrected_13_9(old(cw)@),
        r is Err ==> final(cw)@ == old(cw)@,
{
    proof {
        reveal(syndrome_13_9);
        reveal(corrected_13_9);
        reveal(correctable_13_9);
    }
    let d: [u8; 9] = [cw[0], cw[1], cw[2], cw[3], cw[4], cw[5], cw[6], cw[7], cw[8]];
    let p = hamming_13_9_parity(&d);
    let mut s: usize = 0;
    if cw[9] & 1 != p[0] {
        s += 1;
    }
    if cw[10] & 1 != p[1] {
        s += 2;
    }
    if cw[11] & 1 != p[2] {
        s += 4;
    }
    if cw[12] & 1 != p[3] {
        s += 8;
    }
    assert(s == syndrome_13_9(cw@));
    if s == 0 {
        return Ok(false);
    }
    let pos: i8 = SYNDROME_TO_POS_13_9[s];
    if pos < 0 {
        proof {
            assert forall|q: int| 0 <= q < 13 implies #[trigger] column_13_9(q) != s by {
                lemma_position_13_9(q);
            }
        }
        return Err(HammingError);
    }
    proof {
        assert(0 <= pos < 13 && column_13_9(pos as int) == s);
        lemma_position_13_9(pos as int);
    }
    let at: usize = pos as usize;
    cw[at] = cw[at] ^ 1;
    Ok(true)
}

proof fn lemma_parity_at_13_9(w: Seq<u8>)
    requires
        is_codeword_13_9(w),
    ensures
        forall|i: int| 0 <= i < 4 ==> w[9 + i] == #[trigger] parity_13_9(w)[i],
{
    reveal(is_codeword_13_9);
    assert forall|i: int| 0 <= i < 4 implies w[9 + i] == #[trigger] parity_13_9(w)[i] by {
        assert(w.subrange(9, 13)[i] == w[9 + i]);
    }
}

/// Law: a codeword has a zero syndrome and is left alone.
pub proof fn law_clean_13_9(w: Seq<u8>)
    requires
        is_codeword_13_9(w),
    ensures
        syndrome_13_9(w) == 0,
        correctable_13_9(w),
        corrected_13_9(w) == w,
{
    reveal(is_codeword_13_9);
    reveal(syndrome_13_9);
    reveal(corrected_13_9);
    reveal(correctable_13_9);
    broadcast use lemma_low_bit;

    lemma_parity_at_13_9(w);
}

proof fn lemma_flip_scalars_13_9(
    p: u8,
    b0: u8, b1: u8, b2: u8, b3: u8, b4: u8, b5: u8, b6: u8, b7: u8, b8: u8, b9: u8, b10: u8, b11: u8, b12: u8,
    c0: u8, c1: u8, c2: u8, c3: u8, c4: u8, c5: u8, c6: u8, c7: u8, c8: u8, c9: u8, c10: u8, c11: u8, c12: u8,
)
    by (bit_vector)
    requires
        b0 <= 1,
        b1 <= 1,
        b2 <= 1,
        b3 <= 1,
        b4 <= 1,
        b5 <= 1,
        b6 <= 1,
        b7 <= 1,
        b8 <= 1,
        b9 <= 1,
        b10 <= 1,
        b11 <= 1,
        b12 <= 1,
        b9 == b0 ^ b1 ^ b3 ^ b5 ^ b6,
        b10 == b0 ^ b1 ^ b2 ^ b4 ^ b6 ^ b7,
        b11 == b0 ^ b1 ^ b2 ^ b3 ^ b5 ^ b7 ^ b8,
        b12 == b0 ^ b2 ^ b4 ^ b5 ^ b8,
        p < 13,
        c0 == (if p == 0 { b0 ^ 1 } else { b0 }),
        c1 == (if p == 1 { b1 ^ 1 } else { b1 }),
        c2 == (if p == 2 { b2 ^ 1 } else { b2 }),
        c3 == (if p == 3 { b3 ^ 1 } else { b3 }),
        c4 == (if p == 4 { b4 ^ 1 } else { b4 }),
        c5 == (if p == 5 { b5 ^ 1 } else { b5 }),
        c6 == (if p == 6 { b6 ^ 1 } else { b6 }),
        c7 == (if p == 7 { b7 ^ 1 } else { b7 }),
        c8 == (if p == 8 { b8 ^ 1 } else { b8 }),
        c9 == (if p == 9 { b9 ^ 1 } else { b9 }),
        c10 == (if p == 10 { b10 ^ 1 } else { b10 }),
        c11 == (if p == 11 { b11 ^ 1 } else { b11 }),
        c12 == (if p == 12 { b12 ^ 1 } else { b12 }),
    ensures
        ((c9 & 1) != (c0 ^ c1 ^ c3 ^ c5 ^ c6)) == (p == 0 || p == 1 || p == 3 || p == 5 || p == 6 || p == 9),
        ((c10 & 1) != (c0 ^ c1 ^ c2 ^ c4 ^ c6 ^ c7)) == (p == 0 || p == 1 || p == 2 || p == 4 || p == 6 || p == 7 || p == 10),
        ((c11 & 1) != (c0 ^ c1 ^ c2 ^ c3 ^ c5 ^ c7 ^ c8)) == (p == 0 || p == 1 || p == 2 || p == 3 || p == 5 || p == 7 || p == 8 || p == 11),
        ((c12 & 1) != (c0 ^ c2 ^ c4 ^ c5 ^ c8)) == (p == 0 || p == 2 || p == 4 || p == 5 || p == 8 || p == 12),
{
}

/// Law: a single flipped bit, wherever it is, is found and flipped back.
pub proof fn law_single_error_13_9(w: Seq<u8>, p: int)
    requires
        is_codeword_13_9(w),
        0 <= p < 13,
    ensures
        syndrome_13_9(flip(w, p)) == column_13_9(p),
        correctable_13_9(flip(w, p)),
        corrected_13_9(flip(w, p)) == w,
{
    reveal(is_codeword_13_9);
    reveal(syndrome_13_9);
    reveal(corrected_13_9);
    reveal(correctable_13_9);
    let v = flip(w, p);
    lemma_parity_at_13_9(w);
    lemma_flip_scalars_13_9(
        p as u8,
        w[0], w[1], w[2], w[3], w[4], w[5], w[6], w[7], w[8], w[9], w[10], w[11], w[12],
        v[0], v[1], v[2], v[3], v[4], v[5], v[6], v[7], v[8], v[9], v[10], v[11], v[12],
    );
    lemma_position_13_9(p);
    lemma_flip_twice(w[p]);
    assert(corrected_13_9(v) =~= w);
}

// ---------------------------------------------------------------------------
// Hamming(16,11)
// ---------------------------------------------------------------------------

/// The five parity bits of 11 data bits.
pub open spec fn parity_16_11(d: Seq<u8>) -> Seq<u8> {
    seq![
        d[0] ^ d[1] ^ d[2] ^ d[3] ^ d[5] ^ d[7] ^ d[8],
        d[1] ^ d[2] ^ d[3] ^ d[4] ^ d[6] ^ d[8] ^ d[9],
        d[2] ^ d[3] ^ d[4] ^ d[5] ^ d[7] ^ d[9] ^ d[10],
        d[0] ^ d[1] ^ d[2] ^ d[4] ^ d[6] ^ d[7] ^ d[10],
        d[0] ^ d[2] ^ d[5] ^ d[6] ^ d[8] ^ d[9] ^ d[10],
    ]
}

/// Which parity bits of the 16-bit word `w` disagree with its data bits.
#[verifier::opaque]
pub open spec fn syndrome_16_11(w: Seq<u8>) -> int {
    let p = parity_16_11(w);
    mismatch(w[11], p[0]) + 2 * mismatch(w[12], p[1]) + 4 * mismatch(w[13], p[2]) + 8 * mismatch(w[14], p[3]) + 16 * mismatch(w[15], p[4])
}

/// The syndrome of an error in position `p` alone.
pub open spec fn column_16_11(p: int) -> int {
    seq![25int, 11, 31, 7, 14, 21, 26, 13, 19, 22, 28, 1, 2, 4, 8, 16][p]
}

/// `w` is data bits followed by their parity.
#[verifier::opaque]
pub open spec fn is_codeword_16_11(w: Seq<u8>) -> bool {
    w.len() == 16 && all_bits(w) && w.subrange(11, 16) == parity_16_11(w)
}

/// A single error gives the syndrome `s`.
pub open spec fn points_somewhere_16_11(s: int) -> bool {
    exists|p: int| 0 <= p < 16 && #[trigger] column_16_11(p) == s
}

/// The position that such a syndrome points at.
pub open spec fn position_16_11(s: int) -> int {
    choose|p: int| 0 <= p < 16 && #[trigger] column_16_11(p) == s
}

/// The syndrome is zero or points at a position.
#[verifier::opaque]
pub open spec fn correctable_16_11(w: Seq<u8>) -> bool {
    syndrome_16_11(w) == 0 || points_somewhere_16_11(syndrome_16_11(w))
}

/// `w` with the position that its syndrome points at flipped.
#[verifier::opaque]
pub open spec fn corrected_16_11(w: Seq<u8>) -> Seq<u8> {
    if syndrome_16_11(w) == 0 {
        w
    } else {
        flip(w, position_16_11(syndrome_16_11(w)))
    }
}

const SYNDROME_TO_POS_16_11: [i8; 32] = [
    -1, 11, 12, -1, 13, -1, -1, 3, 14, -1, -1, 1, -1, 7, 4, -1, 15, -1, -1, 8, -1, 5, 9, -1, -1, 0, 6, -1, 10, -1, -1, 2,
];

proof fn lemma_position_16_11(p: int)
    requires
        0 <= p < 16,
    ensures
        1 <= column_16_11(p) < 32,
        points_somewhere_16_11(column_16_11(p)),
        position_16_11(column_16_11(p)) == p,
        SYNDROME_TO_POS_16_11@[column_16_11(p)] == p,
{
    let q = position_16_11(column_16_11(p));
    assert(0 <= q < 16 && column_16_11(q) == column_16_11(p));
}

/// The parity bits of 11 data bits.
pub fn hamming_16_11_parity(d: &[u8; 11]) -> (r: [u8; 5])
    ensures
        r@ == parity_16_11(d@),
{
    let r: [u8; 5] = [
        d[0] ^ d[1] ^ d[2] ^ d[3] ^ d[5] ^ d[7] ^ d[8],
        d[1] ^ d[2] ^ d[3] ^ d[4] ^ d[6] ^ d[8] ^ d[9],
        d[2] ^ d[3] ^ d[4] ^ d[5] ^ d[7] ^ d[9] ^ d[10],
        d[0] ^ d[1] ^ d[2] ^ d[4] ^ d[6] ^ d[7] ^ d[10],
        d[0] ^ d[2] ^ d[5] ^ d[6] ^ d[8] ^ d[9] ^ d[10],
    ];
    assert(r@ =~= parity_16_11(d@));
    r
}

/// Flips the position that the syndrome points at.  A syndrome that no single
/// error gives is an error, and the word is kept.
pub fn hamming_16_11_correct(cw: &mut [u8; 16]) -> (r: Result<(), HammingError>)
    ensures
        r is Ok <==> correctable_16_11(old(cw)@),
        r is Ok ==> final(cw)@ == corrected_16_11(old(cw)@),
        r is Err ==> final(cw)@ == old(cw)@,
{
    proof {
        reveal(syndrome_16_11);
        reveal(corrected_16_11);
        reveal(correctable_16_11);
    }
    let d: [u8; 11] = [cw[0], cw[1], cw[2], cw[3], cw[4], cw[5], cw[6], cw[7], cw[8], cw[9], cw[10]];
    let p = hamming_16_11_parity(&d);
    let mut s: usize = 0;
    if cw[11] & 1 != p[0] {
        s += 1;
    }
    if cw[12] & 1 != p[1] {
        s += 2;
    }
    if cw[13] & 1 != p[2] {
        s += 4;
    }
    if cw[14] & 1 != p[3] {
        s += 8;
    }
    if cw[15] & 1 != p[4] {
        s += 16;
    }
    assert(s == syndrome_16_11(cw@));
    if s == 0 {
        return Ok(());
    }
    let pos: i8 = SYNDROME_TO_POS_16_11[s];
    if pos < 0 {
        proof {
            assert forall|q: int| 0 <= q < 16 implies #[trigger] column_16_11(q) != s by {
                lemma_position_16_11(q);
            }
        }
        return Err(HammingError);
    }
    proof {
        assert(0 <= pos < 16 && column_16_11(pos as int) == s);
        lemma_position_16_11(pos as int);
    }
    let at: usize = pos as usize;
    cw[at] = cw[at] ^ 1;
    Ok(())
}

proof fn lemma_parity_at_16_11(w: Seq<u8>)
    requires
        is_codeword_16_11(w),
    ensures
        forall|i: int| 0 <= i < 5 ==> w[11 + i] == #[trigger] parity_16_11(w)[i],
{
    reveal(is_codeword_16_11);
    assert forall|i: int| 0 <= i < 5 implies w[11 + i] == #[trigger] parity_16_11(w)[i] by {
        assert(w.subrange(11, 16)[i] == w[11 + i]);
    }
}

/// Law: a codeword has a zero syndrome and is left alone.
pub proof fn law_clean_16_11(w: Seq<u8>)
    requires
        is_codeword_16_11(w),
    ensures
        syndrome_16_11(w) == 0,
        correctable_16_11(w),
        corrected_16_11(w) == w,
{
    reveal(is_codeword_16_11);
    reveal(syndrome_16_11);
    reveal(corrected_16_11);
    reveal(correctable_16_11);
    broadcast use lemma_low_bit;

    lemma_parity_at_16_11(w);
}

proof fn lemma_flip_scalars_16_11(
    p: u8,
    b0: u8, b1: u8, b2: u8, b3: u8, b4: u8, b5: u8, b6: u8, b7: u8, b8: u8, b9: u8, b10: u8, b11: u8, b12: u8, b13: u8, b14: u8, b15: u8,
    c0: u8, c1: u8, c2: u8, c3: u8, c4: u8, c5: u8, c6: u8, c7: u8, c8: u8, c9: u8, c10: u8, c11: u8, c12: u8, c13: u8, c14: u8, c15: u8,
)
    by (bit_vector)
    requires
        b0 <= 1,
        b1 <= 1,
        b2 <= 1,
        b3 <= 1,
        b4 <= 1,
        b5 <= 1,
        b6 <= 1,
        b7 <= 1,
        b8 <= 1,
        b9 <= 1,
        b10 <= 1,
        b11 <= 1,
        b12 <= 1,
        b13 <= 1,
        b14 <= 1,
        b15 <= 1,
        b11 == b0 ^ b1 ^ b2 ^ b3 ^ b5 ^ b7 ^ b8,
        b12 == b1 ^ b2 ^ b3 ^ b4 ^ b6 ^ b8 ^ b9,
        b13 == b2 ^ b3 ^ b4 ^ b5 ^ b7 ^ b9 ^ b10,
        b14 == b0 ^ b1 ^ b2 ^ b4 ^ b6 ^ b7 ^ b10,
        b15 == b0 ^ b2 ^ b5 ^ b6 ^ b8 ^ b9 ^ b10,
        p < 16,
        c0 == (if p == 0 { b0 ^ 1 } else { b0 }),
        c1 == (if p == 1 { b1 ^ 1 } else { b1 }),
        c2 == (if p == 2 { b2 ^ 1 } else { b2 }),
        c3 == (if p == 3 { b3 ^ 1 } else { b3 }),
        c4 == (if p == 4 { b4 ^ 1 } else { b4 }),
        c5 == (if p == 5 { b5 ^ 1 } else { b5 }),
        c6 == (if p == 6 { b6 ^ 1 } else { b6 }),
        c7 == (if p == 7 { b7 ^ 1 } else { b7 }),
        c8 == (if p == 8 { b8 ^ 1 } else { b8 }),
        c9 == (if p == 9 { b9 ^ 1 } else { b9 }),
        c10 == (if p == 10 { b10 ^ 1 } else { b10 }),
        c11 == (if p == 11 { b11 ^ 1 } else { b11 }),
        c12 == (if p == 12 { b12 ^ 1 } else { b12 }),
        c13 == (if p == 13 { b13 ^ 1 } else { b13 }),
        c14 == (if p == 14 { b14 ^ 1 } else { b14 }),
        c15 == (if p == 15 { b15 ^ 1 } else { b15 }),
    ensures
        ((c11 & 1) != (c0 ^ c1 ^ c2 ^ c3 ^ c5 ^ c7 ^ c8)) == (p == 0 || p == 1 || p == 2 || p == 3 || p == 5 || p == 7 || p == 8 || p == 11),
        ((c12 & 1) != (c1 ^ c2 ^ c3 ^ c4 ^ c6 ^ c8 ^ c9)) == (p == 1 || p == 2 || p == 3 || p == 4 || p == 6 || p == 8 || p == 9 || p == 12),
        ((c13 & 1) != (c2 ^ c3 ^ c4 ^ c5 ^ c7 ^ c9 ^ c10)) == (p == 2 || p == 3 || p == 4 || p == 5 || p == 7 || p == 9 || p == 10 || p == 13),
        ((c14 & 1) != (c0 ^ c1 ^ c2 ^ c4 ^ c6 ^ c7 ^ c10)) == (p == 0 || p == 1 || p == 2 || p == 4 || p == 6 || p == 7 || p == 10 || p == 14),
        ((c15 & 1) != (c0 ^ c2 ^ c5 ^ c6 ^ c8 ^ c9 ^ c10)) == (p == 0 || p == 2 || p == 5 || p == 6 || p == 8 || p == 9 || p == 10 || p == 15),
{
}

/// Law: a single flipped bit, wherever it is, is found and flipped back.
pub proof fn law_single_error_16_11(w: Seq<u8>, p: int)
    requires
        is_codeword_16_11(w),
        0 <= p < 16,
    ensures
        syndrome_16_11(flip(w, p)) == column_16_11(p),
        correctable_16_11(flip(w, p)),
        corrected_16_11(flip(w, p)) == w,
{
    reveal(is_codeword_16_11);
    reveal(syndrome_16_11);
    reveal(corrected_16_11);
    reveal(correctable_16_11);
    let v = flip(w, p);
    lemma_parity_at_16_11(w);
    lemma_flip_scalars_16_11(
        p as u8,
        w[0], w[1], w[2], w[3], w[4], w[5], w[6], w[7], w[8], w[9], w[10], w[11], w[12], w[13], w[14], w[15],
        v[0], v[1], v[2], v[3], v[4], v[5], v[6], v[7], v[8], v[9], v[10], v[11], v[12], v[13], v[14], v[15],
    );
    lemma_position_16_11(p);
    lemma_flip_twice(w[p]);
    assert(corrected_16_11(v) =~= w);
}

/// `column_16_11` on bytes.
spec fn column_byte_16_11(p: u8) -> u8 {
    if p == 0 {
        25
    } else if p == 1 {
        11
    } else if p == 2 {
        31
    } else if p == 3 {
        7
    } else if p == 4 {
        14
    } else if p == 5 {
        21
    } else if p == 6 {
        26
    } else if p == 7 {
        13
    } else if p == 8 {
        19
    } else if p == 9 {
        22
    } else if p == 10 {
        28
    } else if p == 11 {
        1
    } else if p == 12 {
        2
    } else if p == 13 {
        4
    } else if p == 14 {
        8
    } else {
        16
    }
}

proof fn lemma_two_flips_scalars_16_11(
    p: u8, q: u8,
    b0: u8, b1: u8, b2: u8, b3: u8, b4: u8, b5: u8, b6: u8, b7: u8, b8: u8, b9: u8, b10: u8, b11: u8, b12: u8, b13: u8, b14: u8, b15: u8,
    c0: u8, c1: u8, c2: u8, c3: u8, c4: u8, c5: u8, c6: u8, c7: u8, c8: u8, c9: u8, c10: u8, c11: u8, c12: u8, c13: u8, c14: u8, c15: u8,
    s0: u8, s1: u8, s2: u8, s3: u8, s4: u8,
)
    by (bit_vector)
    requires
        b0 <= 1,
        b1 <= 1,
        b2 <= 1,
        b3 <= 1,
        b4 <= 1,
        b5 <= 1,
        b6 <= 1,
        b7 <= 1,
        b8 <= 1,
        b9 <= 1,
        b10 <= 1,
        b11 <= 1,
        b12 <= 1,
        b13 <= 1,
        b14 <= 1,
        b15 <= 1,
        b11 == b0 ^ b1 ^ b2 ^ b3 ^ b5 ^ b7 ^ b8,
        b12 == b1 ^ b2 ^ b3 ^ b4 ^ b6 ^ b8 ^ b9,
        b13 == b2 ^ b3 ^ b4 ^ b5 ^ b7 ^ b9 ^ b10,
        b14 == b0 ^ b1 ^ b2 ^ b4 ^ b6 ^ b7 ^ b10,
        b15 == b0 ^ b2 ^ b5 ^ b6 ^ b8 ^ b9 ^ b10,
        p < q < 16,
        c0 == (if p == 0 || q == 0 { b0 ^ 1 } else { b0 }),
        c1 == (if p == 1 || q == 1 { b1 ^ 1 } else { b1 }),
        c2 == (if p == 2 || q == 2 { b2 ^ 1 } else { b2 }),
        c3 == (if p == 3 || q == 3 { b3 ^ 1 } else { b3 }),
        c4 == (if p == 4 || q == 4 { b4 ^ 1 } else { b4 }),
        c5 == (if p == 5 || q == 5 { b5 ^ 1 } else { b5 }),
        c6 == (if p == 6 || q == 6 { b6 ^ 1 } else { b6 }),
        c7 == (if p == 7 || q == 7 { b7 ^ 1 } else { b7 }),
        c8 == (if p == 8 || q == 8 { b8 ^ 1 } else { b8 }),
        c9 == (if p == 9 || q == 9 { b9 ^ 1 } else { b9 }),
        c10 == (if p == 10 || q == 10 { b10 ^ 1 } else { b10 }),
        c11 == (if p == 11 || q == 11 { b11 ^ 1 } else { b11 }),
        c12 == (if p == 12 || q == 12 { b12 ^ 1 } else { b12 }),
        c13 == (if p == 13 || q == 13 { b13 ^ 1 } else { b13 }),
        c14 == (if p == 14 || q == 14 { b14 ^ 1 } else { b14 }),
        c15 == (if p == 15 || q == 15 { b15 ^ 1 } else { b15 }),
        s0 == (if (c11 & 1) != (c0 ^ c1 ^ c2 ^ c3 ^ c5 ^ c7 ^ c8) { 1u8 } else { 0u8 }),
        s1 == (if (c12 & 1) != (c1 ^ c2 ^ c3 ^ c4 ^ c6 ^ c8 ^ c9) { 2u8 } else { 0u8 }),
        s2 == (if (c13 & 1) != (c2 ^ c3 ^ c4 ^ c5 ^ c7 ^ c9 ^ c10) { 4u8 } else { 0u8 }),
        s3 == (if (c14 & 1) != (c0 ^ c1 ^ c2 ^ c4 ^ c6 ^ c7 ^ c10) { 8u8 } else { 0u8 }),
        s4 == (if (c15 & 1) != (c0 ^ c2 ^ c5 ^ c6 ^ c8 ^ c9 ^ c10) { 16u8 } else { 0u8 }),
    ensures
        s0 == (column_byte_16_11(p) ^ column_byte_16_11(q)) & 1,
        s1 == (column_byte_16_11(p) ^ column_byte_16_11(q)) & 2,
        s2 == (column_byte_16_11(p) ^ column_byte_16_11(q)) & 4,
        s3 == (column_byte_16_11(p) ^ column_byte_16_11(q)) & 8,
        s4 == (column_byte_16_11(p) ^ column_byte_16_11(q)) & 16,
{
}

/// The syndrome of two errors is not zero and is no column.
proof fn lemma_column_pairs_16_11(p: u8, q: u8, x: u8)
    by (bit_vector)
    requires
        p < q < 16,
        x < 16,
    ensures
        (column_byte_16_11(p) ^ column_byte_16_11(q)) != 0,
        (column_byte_16_11(p) ^ column_byte_16_11(q)) != column_byte_16_11(x),
{
}

proof fn lemma_xor_below_32(a: u8, b: u8)
    by (bit_vector)
    requires
        a < 32,
        b < 32,
    ensures
        a ^ b < 32,
{
}

proof fn lemma_five_digits(s: u8)
    by (bit_vector)
    requires
        s < 32,
    ensures
        (s & 1) + (s & 2) + (s & 4) + (s & 8) + (s & 16) == s,
{
}

/// Law: two flipped bits, wherever they are, are reported.
pub proof fn law_double_error_16_11(w: Seq<u8>, p: int, q: int)
    requires
        is_codeword_16_11(w),
        0 <= p < q < 16,
    ensures
        !correctable_16_11(flip(flip(w, p), q)),
{
    reveal(is_codeword_16_11);
    reveal(syndrome_16_11);
    reveal(correctable_16_11);
    let v = flip(flip(w, p), q);
    lemma_parity_at_16_11(w);
    let par = parity_16_11(v);
    lemma_two_flips_scalars_16_11(
        p as u8, q as u8,
        w[0], w[1], w[2], w[3], w[4], w[5], w[6], w[7], w[8], w[9], w[10], w[11], w[12], w[13], w[14], w[15],
        v[0], v[1], v[2], v[3], v[4], v[5], v[6], v[7], v[8], v[9], v[10], v[11], v[12], v[13], v[14], v[15],
        mismatch(v[11], par[0]) as u8,
        (2 * mismatch(v[12], par[1])) as u8,
        (4 * mismatch(v[13], par[2])) as u8,
        (8 * mismatch(v[14], par[3])) as u8,
        (16 * mismatch(v[15], par[4])) as u8,
    );
    let s = column_byte_16_11(p as u8) ^ column_byte_16_11(q as u8);
    assert(s < 32) by {
        lemma_xor_below_32(column_byte_16_11(p as u8), column_byte_16_11(q as u8));
    }
    lemma_five_digits(s);
    lemma_column_pairs_16_11(p as u8, q as u8, 0);
    assert forall|x: int| 0 <= x < 16 implies #[trigger] column_16_11(x) != syndrome_16_11(v) by {
        lemma_column_pairs_16_11(p as u8, q as u8, x as u8);
    }
}

// ---------------------------------------------------------------------------
// Golay(20,8)
// ---------------------------------------------------------------------------

/// The 12 parity bits of a byte: the low eight in bits 0 to 7, the high four
/// in bits 12 to 15.  The code is linear: each data bit adds its own row.
pub open spec fn golay_parity(d: u8) -> u16 {
    (if d & 0x01 != 0 { 0xB08Eu16 } else { 0u16 })
        ^ (if d & 0x02 != 0 { 0xE093u16 } else { 0u16 })
        ^ (if d & 0x04 != 0 { 0x70A9u16 } else { 0u16 })
        ^ (if d & 0x08 != 0 { 0x60DCu16 } else { 0u16 })
        ^ (if d & 0x10 != 0 { 0x7036u16 } else { 0u16 })
        ^ (if d & 0x20 != 0 { 0xD06Cu16 } else { 0u16 })
        ^ (if d & 0x40 != 0 { 0x90D9u16 } else { 0u16 })
        ^ (if d & 0x80 != 0 { 0xA03Du16 } else { 0u16 })
}

/// The 20 bits that carry a byte: the byte, the low parity byte, the high
/// parity nibble.
pub open spec fn golay_word(info: u8) -> Seq<u8> {
    let lo = (golay_parity(info) % 0x100) as u8;
    let hi = (golay_parity(info) / 0x100) as u8;
    Seq::new(
        20,
        |i: int|
            if i < 8 {
                bit_of(info, i)
            } else if i < 16 {
                bit_of(lo, i - 8)
            } else {
                bit_of(hi, i - 16)
            },
    )
}

/// The parity that 20 received bits carry.
pub open spec fn golay_received(b: Seq<u8>) -> int {
    byte_at(b, 8) + 0x100 * byte_from(b[16], b[17], b[18], b[19], 0, 0, 0, 0)
}

/// How many bits of `x` are set.
pub open spec fn ones(x: u16) -> int {
    (if x & 0x0001 != 0 { 1int } else { 0int })
        + (if x & 0x0002 != 0 { 1int } else { 0int })
        + (if x & 0x0004 != 0 { 1int } else { 0int })
        + (if x & 0x0008 != 0 { 1int } else { 0int })
        + (if x & 0x0010 != 0 { 1int } else { 0int })
        + (if x & 0x0020 != 0 { 1int } else { 0int })
        + (if x & 0x0040 != 0 { 1int } else { 0int })
        + (if x & 0x0080 != 0 { 1int } else { 0int })
        + (if x & 0x0100 != 0 { 1int } else { 0int })
        + (if x & 0x0200 != 0 { 1int } else { 0int })
        + (if x & 0x0400 != 0 { 1int } else { 0int })
        + (if x & 0x0800 != 0 { 1int } else { 0int })
        + (if x & 0x1000 != 0 { 1int } else { 0int })
        + (if x & 0x2000 != 0 { 1int } else { 0int })
        + (if x & 0x4000 != 0 { 1int } else { 0int })
        + (if x & 0x8000 != 0 { 1int } else { 0int })
}

/// The parity bits of a byte.
pub fn golay_20_8_parity(data: u8) -> (r: u16)
    ensures
        r == golay_parity(data),
{
    let r0: u16 = if data & 0x01 != 0 {
        0xB08E
    } else {
        0
    };
    let r1: u16 = if data & 0x02 != 0 {
        0xE093
    } else {
        0
    };
    let r2: u16 = if data & 0x04 != 0 {
        0x70A9
    } else {
        0
    };
    let r3: u16 = if data & 0x08 != 0 {
        0x60DC
    } else {
        0
    };
    let r4: u16 = if data & 0x10 != 0 {
        0x7036
    } else {
        0
    };
    let r5: u16 = if data & 0x20 != 0 {
        0xD06C
    } else {
        0
    };
    let r6: u16 = if data & 0x40 != 0 {
        0x90D9
    } else {
        0
    };
    let r7: u16 = if data & 0x80 != 0 {
        0xA03D
    } else {
        0
    };
    r0 ^ r1 ^ r2 ^ r3 ^ r4 ^ r5 ^ r6 ^ r7
}

/// The byte that 20 bits carry, if their parity is the byte's own.
pub fn golay_20_8_decode(bits: &[u8; 20]) -> (r: Result<u8, LookupDecodeError>)
    ensures
        r is Ok <==> golay_parity(byte_at(bits@, 0)) == golay_received(bits@),
        r matches Ok(info) ==> info == byte_at(bits@, 0),
{
    let info: u8 = get_byte(bits, 0);
    let lo: u8 = get_byte(bits, 8);
    let hi_bits: [u8; 8] = [bits[16], bits[17], bits[18], bits[19], 0, 0, 0, 0];
    let hi: u8 = get_byte(&hi_bits, 0);
    let received: u16 = lo as u16 + 0x100 * hi as u16;
    if golay_20_8_parity(info) == received {
        Ok(info)
    } else {
        Err(LookupDecodeError)
    }
}

proof fn lemma_golay_linear(a: u8, b: u8)
    by (bit_vector)
    ensures
        golay_parity(a) ^ golay_parity(b) == golay_parity(a ^ b),
        a != b ==> (a ^ b) != 0,
        golay_parity(a) == golay_parity(b) ==> golay_parity(a) ^ golay_parity(b) == 0,
{
}

proof fn lemma_golay_weight(d: u8)
    by (bit_vector)
    ensures
        golay_parity(d) & 0x0F00 == 0,
        d != 0 ==> golay_parity(d) != 0,
        d != 0 ==> ones(d as u16) + ones(golay_parity(d)) >= 7,
{
}

proof fn lemma_golay_parity(a: u8, b: u8)
    ensures
        golay_parity(a) & 0x0F00 == 0,
        a != b ==> golay_parity(a) != golay_parity(b),
{
    lemma_golay_linear(a, b);
    lemma_golay_weight(a);
    lemma_golay_weight(a ^ b);
}

/// Law: the codewords of two different bytes differ in at least seven bits.
pub proof fn law_golay_distance(a: u8, b: u8)
    requires
        a != b,
    ensures
        ones((a ^ b) as u16) + ones(golay_parity(a) ^ golay_parity(b)) >= 7,
{
    lemma_golay_linear(a, b);
    lemma_golay_weight(a ^ b);
}

proof fn lemma_high_nibble(h: u8, p: u16)
    by (bit_vector)
    requires
        p & 0x0F00 == 0,
        h == p / 0x100,
    ensures
        byte_from((h >> 7) & 1, (h >> 6) & 1, (h >> 5) & 1, (h >> 4) & 1, 0, 0, 0, 0) == h,
{
}

/// Law: reading the 20 bits of a byte gives the byte back.
pub proof fn law_golay_round_trip(info: u8)
    ensures
        byte_at(golay_word(info), 0) == info,
        golay_received(golay_word(info)) == golay_parity(info),
        all_bits(golay_word(info)),
{
    let w = golay_word(info);
    let p = golay_parity(info);
    let lo = (p % 0x100) as u8;
    let hi = (p / 0x100) as u8;
    lemma_golay_parity(info, info);
    lemma_bits_spell_byte(info, w, 0);
    lemma_bits_spell_byte(lo, w, 8);
    lemma_high_nibble(hi, p);
    assert(w[16] == bit_of(hi, 0) && w[17] == bit_of(hi, 1) && w[18] == bit_of(hi, 2) && w[19]
        == bit_of(hi, 3));
    assert forall|i: int| 0 <= i < 20 implies w[i] <= 1 by {
        lemma_bit_range(
            if i < 8 {
                info
            } else if i < 16 {
                lo
            } else {
                hi
            },
            i % 8,
        );
    }
}

proof fn lemma_flip_is_change(a: u8)
    by (bit_vector)
    ensures
        (a ^ 1) & 1 != a & 1,
{
}

/// Law: one flipped bit, wherever it is, is reported.
pub proof fn law_golay_detects_single_flip(info: u8, p: int)
    requires
        0 <= p < 20,
    ensures
        ({
            let v = flip(golay_word(info), p);
            golay_parity(byte_at(v, 0)) != golay_received(v)
        }),
{
    let w = golay_word(info);
    let v = flip(w, p);
    law_golay_round_trip(info);
    lemma_flip_is_change(w[p]);
    if p < 8 {
        lemma_byte_has_bits(w, 0, p);
        lemma_byte_has_bits(v, 0, p);
        assert(byte_at(v, 0) != info);
        lemma_golay_parity(byte_at(v, 0), info);
    } else if p < 16 {
        lemma_byte_has_bits(w, 8, p - 8);
        lemma_byte_has_bits(v, 8, p - 8);
        assert(byte_at(v, 8) != byte_at(w, 8));
    } else {
        let wn = seq![w[16], w[17], w[18], w[19], 0u8, 0u8, 0u8, 0u8];
        let vn = seq![v[16], v[17], v[18], v[19], 0u8, 0u8, 0u8, 0u8];
        lemma_byte_has_bits(wn, 0, p - 16);
        lemma_byte_has_bits(vn, 0, p - 16);
        assert(byte_at(vn, 0) != byte_at(wn, 0));
    }
}

// ---------------------------------------------------------------------------
// QR(16,7)
// ---------------------------------------------------------------------------

/// The 16-bit codeword of the low seven bits of `d`. It starts with those seven
/// bits, which nine parity bits follow; the word of seven ones is a word apart.
pub open spec fn qr_word(d: u8) -> u16 {
    if d & 0x7F == 0x7F {
        0xFC87
    } else {
        (if d & 0x01 != 0 { 0x0273u16 } else { 0u16 })
            ^ (if d & 0x02 != 0 { 0x04E5u16 } else { 0u16 })
            ^ (if d & 0x04 != 0 { 0x09C9u16 } else { 0u16 })
            ^ (if d & 0x08 != 0 { 0x11E2u16 } else { 0u16 })
            ^ (if d & 0x10 != 0 { 0x21B7u16 } else { 0u16 })
            ^ (if d & 0x20 != 0 { 0x411Eu16 } else { 0u16 })
            ^ (if d & 0x40 != 0 { 0x804Fu16 } else { 0u16 })
    }
}

/// The codeword of the low seven bits of `data`.
pub fn qr_16_7_encode(data: u8) -> (r: u16)
    ensures
        r == qr_word(data),
{
    if data & 0x7F == 0x7F {
        return 0xFC87;
    }
    let r0: u16 = if data & 0x01 != 0 {
        0x0273
    } else {
        0
    };
    let r1: u16 = if data & 0x02 != 0 {
        0x04E5
    } else {
        0
    };
    let r2: u16 = if data & 0x04 != 0 {
        0x09C9
    } else {
        0
    };
    let r3: u16 = if data & 0x08 != 0 {
        0x11E2
    } else {
        0
    };
    let r4: u16 = if data & 0x10 != 0 {
        0x21B7
    } else {
        0
    };
    let r5: u16 = if data & 0x20 != 0 {
        0x411E
    } else {
        0
    };
    let r6: u16 = if data & 0x40 != 0 {
        0x804F
    } else {
        0
    };
    r0 ^ r1 ^ r2 ^ r3 ^ r4 ^ r5 ^ r6
}

/// The seven bits whose codeword this is.
pub fn qr_16_7_decode(codeword: u16) -> (r: Result<u8, LookupDecodeError>)
    ensures
        r matches Ok(info) ==> info < 0x80 && qr_word(info) == codeword,
        r is Err ==> forall|info: u8| info < 0x80 ==> qr_word(info) != codeword,
{
    let mut info: u8 = 0;
    while info < 0x80
        invariant
            info <= 0x80,
            forall|k: u8| k < info ==> qr_word(k) != codeword,
        decreases 0x80 - info,
    {
        if qr_16_7_encode(info) == codeword {
            return Ok(info);
        }
        info += 1;
    }
    Err(LookupDecodeError)
}

/// The values whose codewords differ from that of seven ones in four bits only.
pub open spec fn near_ones(d: u8) -> bool {
    d == 54 || d == 60 || d == 62 || d == 78 || d == 87 || d == 110 || d == 114 || d == 124
}

proof fn lemma_qr_words(a: u8, b: u8)
    by (bit_vector)
    requires
        a < 0x80,
        b < 0x80,
        a != b,
    ensures
        ones(qr_word(a) ^ qr_word(b)) >= 4,
        a != 0x7F && b != 0x7F ==> ones(qr_word(a) ^ qr_word(b)) >= 6,
        a == 0x7F && !near_ones(b) ==> ones(qr_word(a) ^ qr_word(b)) >= 6,
        b == 0x7F && !near_ones(a) ==> ones(qr_word(a) ^ qr_word(b)) >= 6,
{
}

/// Law: a codeword starts with the seven bits it was made of.
pub proof fn law_qr_systematic(info: u8)
    requires
        info < 0x7F,
    ensures
        qr_word(info) / 0x200 == info,
{
    assert(qr_word(info) / 0x200 == info as u16) by (bit_vector)
        requires
            info < 0x7F,
    ;
}

/// Law: the codewords of two values differ in at least six bits.
pub proof fn law_qr_distance(a: u8, b: u8)
    requires
        a < 0x80,
        b < 0x80,
        a != b,
        !(a == 0x7F && near_ones(b)),
        !(b == 0x7F && near_ones(a)),
    ensures
        ones(qr_word(a) ^ qr_word(b)) >= 6,
{
    lemma_qr_words(a, b);
}

/// Law: a codeword is read back as the seven bits it was made of.
pub proof fn law_qr_round_trip(info: u8, read: u8)
    requires
        info < 0x80,
        read < 0x80,
        qr_word(read) == qr_word(info),
    ensures
        read == info,
{
    if read != info {
        lemma_qr_words(info, read);
        let (v, w) = (qr_word(info), qr_word(read));
        assert(v == w ==> ones(v ^ w) == 0) by (bit_vector);
    }
}

/// Law: a codeword with one, two or three flipped bits is no codeword.
pub proof fn law_qr_detects_flips(info: u8, flips: u16)
    requires
        info < 0x80,
        1 <= ones(flips) <= 3,
    ensures
        forall|other: u8| other < 0x80 ==> qr_word(other) != qr_word(info) ^ flips,
{
    assert forall|other: u8| other < 0x80 implies qr_word(other) != qr_word(info) ^ flips by {
        let (v, w) = (qr_word(info), qr_word(other));
        assert(w == v ^ flips ==> v ^ w == flips) by (bit_vector);
        if other == info {
            assert(v ^ v == 0 && ones(0) == 0) by (bit_vector);
        } else {
            lemma_qr_words(info, other);
        }
    }
}

/// Law: the parity bits of the Hamming codes are these sums of data bits.
pub proof fn law_hamming_parity(d: Seq<u8>, e: Seq<u8>)
    requires
        d.len() == 11,
        e.len() == 9,
    ensures
        parity_15_11(d) == seq![
            d[0] ^ d[1] ^ d[2] ^ d[3] ^ d[5] ^ d[7] ^ d[8],
            d[1] ^ d[2] ^ d[3] ^ d[4] ^ d[6] ^ d[8] ^ d[9],
            d[2] ^ d[3] ^ d[4] ^ d[5] ^ d[7] ^ d[9] ^ d[10],
            d[0] ^ d[1] ^ d[2] ^ d[4] ^ d[6] ^ d[7] ^ d[10],
        ],
        parity_13_9(e) == seq![
            e[0] ^ e[1] ^ e[3] ^ e[5] ^ e[6],
            e[0] ^ e[1] ^ e[2] ^ e[4] ^ e[6] ^ e[7],
            e[0] ^ e[1] ^ e[2] ^ e[3] ^ e[5] ^ e[7] ^ e[8],
            e[0] ^ e[2] ^ e[4] ^ e[5] ^ e[8],
        ],
        parity_16_11(d) == seq![
            d[0] ^ d[1] ^ d[2] ^ d[3] ^ d[5] ^ d[7] ^ d[8],
            d[1] ^ d[2] ^ d[3] ^ d[4] ^ d[6] ^ d[8] ^ d[9],
            d[2] ^ d[3] ^ d[4] ^ d[5] ^ d[7] ^ d[9] ^ d[10],
            d[0] ^ d[1] ^ d[2] ^ d[4] ^ d[6] ^ d[7] ^ d[10],
            d[0] ^ d[2] ^ d[5] ^ d[6] ^ d[8] ^ d[9] ^ d[10],
        ],
{
}

/// Law: the 20 bits of a byte are its own, the most significant first, then the low
/// eight parity bits and the four high ones, in the same order.
pub proof fn law_golay_word_layout(info: u8)
    ensures
        golay_word(info).len() == 20,
        info == 128 * golay_word(info)[0] + 64 * golay_word(info)[1] + 32 * golay_word(info)[2] + 16
            * golay_word(info)[3] + 8 * golay_word(info)[4] + 4 * golay_word(info)[5] + 2 * golay_word(
            info,
        )[6] + golay_word(info)[7],
        golay_parity(info) % 256 == 128 * golay_word(info)[8] + 64 * golay_word(info)[9] + 32
            * golay_word(info)[10] + 16 * golay_word(info)[11] + 8 * golay_word(info)[12] + 4
            * golay_word(info)[13] + 2 * golay_word(info)[14] + golay_word(info)[15],
        golay_parity(info) / 4096 == 8 * golay_word(info)[16] + 4 * golay_word(info)[17] + 2
            * golay_word(info)[18] + golay_word(info)[19],
{
    let w = golay_word(info);
    let lo = (golay_parity(info) % 0x100) as u8;
    let hi = (golay_parity(info) / 0x100) as u8;
    lemma_byte_digits(info);
    lemma_byte_digits(lo);
    lemma_byte_digits(hi);
}

proof fn lemma_byte_digits(x: u8)
    by (bit_vector)
    ensures
        x == 128 * ((x >> 7) & 1) + 64 * ((x >> 6) & 1) + 32 * ((x >> 5) & 1) + 16 * ((x >> 4) & 1) + 8
            * ((x >> 3) & 1) + 4 * ((x >> 2) & 1) + 2 * ((x >> 1) & 1) + ((x >> 0) & 1),
        x / 16 == 8 * ((x >> 7) & 1) + 4 * ((x >> 6) & 1) + 2 * ((x >> 5) & 1) + ((x >> 4) & 1),
{
}

} // verus!
