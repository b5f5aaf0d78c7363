//! Embedded LC: the link control that voice bursts B to E carry.
//!
//! 72 LC bits and a five-bit checksum fill a matrix of 8 rows and 16 columns.
//! Rows 0 to 6 are Hamming(16,11) codewords; row 7 is the column parity.  The
//! matrix is sent column by column in four fragments of 32 bits, the first
//! with LCSS 1, the next two with 3, the last with 2.  Burst F carries LCSS 0.

use vstd::prelude::*;

use crate::bits::{byte_at, bytes_of, get_byte};
use crate::fec::{
    all_bits, correctable_16_11, corrected_16_11, flip, hamming_16_11_correct,
    hamming_16_11_parity, is_codeword_16_11, law_clean_16_11, law_double_error_16_11,
    law_single_error_16_11, lemma_xor_bits, parity_16_11,
};

verus! {

/// Bits of the matrix.
pub const RAW_BITS: usize = 128;

/// Bits of a link control.
pub const DATA_BITS: usize = 72;

/// Columns of the matrix.
pub const ROW_BITS: usize = 16;

/// Bits of a fragment.
pub const FRAGMENT_BITS: usize = 32;

/// Bytes of a fragment.
pub const FRAGMENT_BYTES: usize = 4;

/// First fragment.
pub const LCSS_FIRST: u8 = 1;

/// Fragment in the middle.
pub const LCSS_CONTINUATION: u8 = 3;

/// Last fragment.
pub const LCSS_LAST: u8 = 2;

/// No fragment.
pub const LCSS_NULL: u8 = 0;

/// The checksum of nine LC bytes: their sum modulo 31.
pub open spec fn crc5(b: Seq<u8>) -> int {
    (b[0] + b[1] + b[2] + b[3] + b[4] + b[5] + b[6] + b[7] + b[8]) % 31
}

/// The checksum bit in row `r`, most significant in row 2.
pub open spec fn crc_bit(crc: int, r: int) -> int {
    if r == 2 {
        crc / 16 % 2
    } else if r == 3 {
        crc / 8 % 2
    } else if r == 4 {
        crc / 4 % 2
    } else if r == 5 {
        crc / 2 % 2
    } else {
        crc % 2
    }
}

/// The LC bit in row `r` and column `c`.
pub open spec fn lc_index(r: int, c: int) -> int {
    if r < 2 {
        11 * r + c
    } else {
        22 + 10 * (r - 2) + c
    }
}

/// The 11 information bits of row `r`.
pub open spec fn info_row(lc: Seq<u8>, r: int) -> Seq<u8> {
    Seq::new(
        11,
        |c: int|
            if r >= 2 && c == 10 {
                crc_bit(crc5(bytes_of(lc)), r) as u8
            } else {
                lc[lc_index(r, c)]
            },
    )
}

/// Row `r` of a matrix.
pub open spec fn row_of(m: Seq<u8>, r: int) -> Seq<u8> {
    m.subrange(16 * r, 16 * r + 16)
}

/// The exclusive or of the first seven bits of column `c`.
pub open spec fn column_parity(m: Seq<u8>, c: int) -> u8 {
    m[c] ^ m[16 + c] ^ m[32 + c] ^ m[48 + c] ^ m[64 + c] ^ m[80 + c] ^ m[96 + c]
}

/// The matrix that 128 sent bits carry.
pub open spec fn matrix_of(raw: Seq<u8>) -> Seq<u8> {
    Seq::new(128, |p: int| raw[8 * (p % 16) + p / 16])
}

/// `m` is the matrix of `lc`.
pub open spec fn is_matrix_of(lc: Seq<u8>, m: Seq<u8>) -> bool {
    &&& m.len() == 128
    &&& forall|r: int|
        0 <= r < 7 ==> #[trigger] row_of(m, r) == info_row(lc, r) + parity_16_11(info_row(lc, r))
    &&& forall|c: int| 0 <= c < 16 ==> #[trigger] m[112 + c] == column_parity(m, c)
}

/// `raw` is the 128 bits sent for `lc`.
pub open spec fn is_raw_of(lc: Seq<u8>, raw: Seq<u8>) -> bool {
    raw.len() == 128 && is_matrix_of(lc, matrix_of(raw))
}

/// The five-bit checksum of an LC.
pub fn crc5_embedded(lc_bytes: &[u8; 9]) -> (r: u8)
    ensures
        r == crc5(lc_bytes@),
{
    let total: u16 = lc_bytes[0] as u16 + lc_bytes[1] as u16 + lc_bytes[2] as u16
        + lc_bytes[3] as u16 + lc_bytes[4] as u16 + lc_bytes[5] as u16 + lc_bytes[6] as u16
        + lc_bytes[7] as u16 + lc_bytes[8] as u16;
    (total % 31) as u8
}

/// The nine bytes that 72 bits spell.
pub fn lc_bytes_of(lc_bits: &[u8; DATA_BITS]) -> (bytes: [u8; 9])
    ensures
        bytes@ == bytes_of(lc_bits@),
{
    let mut bytes: [u8; 9] = [0u8; 9];
    let mut i: usize = 0;
    while i < 9
        invariant
            i <= 9,
            forall|j: int| 0 <= j < i ==> bytes@[j] == bytes_of(lc_bits@)[j],
        decreases 9 - i,
    {
        bytes[i] = get_byte(lc_bits, 8 * i);
        i += 1;
    }
    assert(bytes@ =~= bytes_of(lc_bits@));
    bytes
}

/// The information bits of row `r`.
fn build_info_row(lc_bits: &[u8; DATA_BITS], crc: u8, r: usize) -> (d: [u8; 11])
    requires
        r < 7,
        crc == crc5(bytes_of(lc_bits@)),
    ensures
        d@ == info_row(lc_bits@, r as int),
{
    let mut d: [u8; 11] = [0u8; 11];
    let mut c: usize = 0;
    while c < 11
        invariant
            c <= 11,
            r < 7,
            crc == crc5(bytes_of(lc_bits@)),
            forall|k: int| 0 <= k < c ==> d@[k] == info_row(lc_bits@, r as int)[k],
        decreases 11 - c,
    {
        d[c] = if r >= 2 && c == 10 {
            if r == 2 {
                crc / 16 % 2
            } else if r == 3 {
                crc / 8 % 2
            } else if r == 4 {
                crc / 4 % 2
            } else if r == 5 {
                crc / 2 % 2
            } else {
                crc % 2
            }
        } else if r < 2 {
            lc_bits[11 * r + c]
        } else {
            lc_bits[22 + 10 * (r - 2) + c]
        };
        c += 1;
    }
    assert(d@ =~= info_row(lc_bits@, r as int));
    d
}

/// Information bits followed by their parity.
fn with_parity(d: &[u8; 11]) -> (word: [u8; 16])
    ensures
        word@ == d@ + parity_16_11(d@),
{
    let p = hamming_16_11_parity(d);
    let word: [u8; 16] = [
        d[0],
        d[1],
        d[2],
        d[3],
        d[4],
        d[5],
        d[6],
        d[7],
        d[8],
        d[9],
        d[10],
        p[0],
        p[1],
        p[2],
        p[3],
        p[4],
    ];
    assert(word@ =~= d@ + p@);
    word
}

/// Replaces row `r` of the matrix.
fn set_row(mat: &mut [u8; RAW_BITS], r: usize, word: &[u8; 16])
    requires
        r < 8,
    ensures
        forall|q: int|
            0 <= q < 8 ==> #[trigger] row_of(final(mat)@, q) == if q == r {
                word@
            } else {
                row_of(old(mat)@, q)
            },
{
    let ghost before = mat@;
    let mut c: usize = 0;
    while c < 16
        invariant
            c <= 16,
            r < 8,
            forall|p: int|
                0 <= p < 128 ==> mat@[p] == if 16 * r <= p < 16 * r + c {
                    word@[p - 16 * r]
                } else {
                    before[p]
                },
        decreases 16 - c,
    {
        mat[16 * r + c] = word[c];
        c += 1;
    }
    assert forall|q: int| 0 <= q < 8 implies #[trigger] row_of(mat@, q) == if q == r {
        word@
    } else {
        row_of(before, q)
    } by {
        assert(row_of(mat@, q) =~= if q == r {
            word@
        } else {
            row_of(before, q)
        });
    }
}

/// The 128 bits sent for an LC.
pub fn encode_raw(lc_bits: &[u8; DATA_BITS]) -> (raw: [u8; RAW_BITS])
    ensures
        is_raw_of(lc_bits@, raw@),
{
    let lc_bytes = lc_bytes_of(lc_bits);
    let crc: u8 = crc5_embedded(&lc_bytes);
    let mut mat: [u8; RAW_BITS] = [0u8; RAW_BITS];
    let mut r: usize = 0;
    while r < 7
        invariant
            r <= 7,
            crc == crc5(bytes_of(lc_bits@)),
            forall|q: int|
                0 <= q < r ==> #[trigger] row_of(mat@, q) == info_row(lc_bits@, q) + parity_16_11(
                    info_row(lc_bits@, q),
                ),
        decreases 7 - r,
    {
        let d = build_info_row(lc_bits, crc, r);
        let word = with_parity(&d);
        set_row(&mut mat, r, &word);
        r += 1;
    }
    let ghost top = mat@;
    let mut c: usize = 0;
    while c < 16
        invariant
            c <= 16,
            forall|p: int| 0 <= p < 112 ==> mat@[p] == top[p],
            forall|k: int| 0 <= k < c ==> #[trigger] mat@[112 + k] == column_parity(top, k),
        decreases 16 - c,
    {
        mat[112 + c] = mat[c] ^ mat[16 + c] ^ mat[32 + c] ^ mat[48 + c] ^ mat[64 + c] ^ mat[80 + c]
            ^ mat[96 + c];
        c += 1;
    }
    proof {
        assert forall|q: int| 0 <= q < 7 implies #[trigger] row_of(mat@, q) == info_row(
            lc_bits@,
            q,
        ) + parity_16_11(info_row(lc_bits@, q)) by {
            assert(row_of(mat@, q) =~= row_of(top, q));
        }
        assert forall|k: int| 0 <= k < 16 implies #[trigger] mat@[112 + k] == column_parity(
            mat@,
            k,
        ) by {}
    }
    let mut raw: [u8; RAW_BITS] = [0u8; RAW_BITS];
    let mut k: usize = 0;
    while k < RAW_BITS
        invariant
            k <= 128,
            forall|j: int| 0 <= j < k ==> raw@[j] == mat@[16 * (j % 8) + j / 8],
        decreases 128 - k,
    {
        raw[k] = mat[16 * (k % 8) + k / 8];
        k += 1;
    }
    proof {
        assert forall|p: int| 0 <= p < 128 implies matrix_of(raw@)[p] == mat@[p] by {
            let j = 8 * (p % 16) + p / 16;
            assert(j % 8 == p / 16 && j / 8 == p % 16);
        }
        assert(matrix_of(raw@) =~= mat@);
    }
    raw
}

/// The four fragments of an LC, for bursts B to E.
pub fn build_fragments(lc_bits: &[u8; DATA_BITS]) -> (out: [[u8; FRAGMENT_BYTES]; 4])
    ensures
        exists|raw: Seq<u8>| #[trigger]
            is_raw_of(lc_bits@, raw) && forall|n: int, i: int|
                0 <= n < 4 && 0 <= i < 4 ==> #[trigger] out@[n]@[i] == byte_at(
                    raw,
                    32 * n + 8 * i,
                ),
{
    let raw = encode_raw(lc_bits);
    let b0 = fragment_at(&raw, 0);
    let b1 = fragment_at(&raw, 32);
    let b2 = fragment_at(&raw, 64);
    let b3 = fragment_at(&raw, 96);
    let out: [[u8; FRAGMENT_BYTES]; 4] = [b0, b1, b2, b3];
    assert(is_raw_of(lc_bits@, raw@));
    out
}

/// The four bytes of the fragment that starts at bit `at`.
fn fragment_at(raw: &[u8; RAW_BITS], at: usize) -> (f: [u8; FRAGMENT_BYTES])
    requires
        at + 32 <= 128,
    ensures
        forall|i: int| 0 <= i < 4 ==> #[trigger] f@[i] == byte_at(raw@, at + 8 * i),
{
    [get_byte(raw, at), get_byte(raw, at + 8), get_byte(raw, at + 16), get_byte(raw, at + 24)]
}

/// The LCSS that goes with fragment `n`.
pub fn lcss_for_fragment(n: usize) -> (r: u8)
    ensures
        r == (if n == 0 {
            LCSS_FIRST
        } else if n == 1 || n == 2 {
            LCSS_CONTINUATION
        } else if n == 3 {
            LCSS_LAST
        } else {
            LCSS_NULL
        }),
{
    match n {
        0 => LCSS_FIRST,
        1 | 2 => LCSS_CONTINUATION,
        3 => LCSS_LAST,
        _ => LCSS_NULL,
    }
}

// ---------------------------------------------------------------------------
// Decoding
// ---------------------------------------------------------------------------

/// Why 128 bits do not carry an LC.
#[derive(Debug, Clone, Copy, PartialEq, Eq, Structural)]
pub enum DecodeError {
    /// A row has two or more wrong bits.
    Hamming,
    /// The checksum is not that of the LC.
    Crc { received: u8, computed: u8 },
}

/// Rows 0 to 6 are correctable.
pub open spec fn rows_correctable(raw: Seq<u8>) -> bool {
    forall|r: int| 0 <= r < 7 ==> correctable_16_11(#[trigger] row_of(matrix_of(raw), r))
}

/// Row `r` after correction.
pub open spec fn fixed_row(raw: Seq<u8>, r: int) -> Seq<u8> {
    corrected_16_11(row_of(matrix_of(raw), r))
}

/// Row of LC bit `i`.
pub open spec fn row_of_bit(i: int) -> int {
    if i < 22 {
        i / 11
    } else {
        2 + (i - 22) / 10
    }
}

/// Column of LC bit `i`.
pub open spec fn col_of_bit(i: int) -> int {
    if i < 22 {
        i % 11
    } else {
        (i - 22) % 10
    }
}

/// The LC bits after correction.
pub open spec fn received_lc(raw: Seq<u8>) -> Seq<u8> {
    Seq::new(72, |i: int| fixed_row(raw, row_of_bit(i))[col_of_bit(i)])
}

/// Five bits as a number, most significant first.
pub open spec fn five_bits(a: u8, b: u8, c: u8, d: u8, e: u8) -> u8 {
    (a << 4) | (b << 3) | (c << 2) | (d << 1) | e
}

/// The checksum after correction.
pub open spec fn received_crc(raw: Seq<u8>) -> u8 {
    five_bits(
        fixed_row(raw, 2)[10],
        fixed_row(raw, 3)[10],
        fixed_row(raw, 4)[10],
        fixed_row(raw, 5)[10],
        fixed_row(raw, 6)[10],
    )
}

/// What decoding gives.
pub open spec fn decoded_raw(raw: Seq<u8>) -> Result<Seq<u8>, DecodeError> {
    let bytes = bytes_of(received_lc(raw));
    if !rows_correctable(raw) {
        Err(DecodeError::Hamming)
    } else if received_crc(raw) != crc5(bytes) {
        Err(DecodeError::Crc { received: received_crc(raw), computed: crc5(bytes) as u8 })
    } else {
        Ok(bytes)
    }
}

/// Corrects rows 0 to 6; says whether all of them could be corrected.
fn fix_rows(mat: &mut [u8; RAW_BITS]) -> (ok: bool)
    ensures
        ok <==> forall|r: int| 0 <= r < 7 ==> correctable_16_11(#[trigger] row_of(old(mat)@, r)),
        ok ==> forall|r: int|
            0 <= r < 7 ==> #[trigger] row_of(final(mat)@, r) == corrected_16_11(
                row_of(old(mat)@, r),
            ),
{
    let ghost m0 = mat@;
    let mut r: usize = 0;
    while r < 7
        invariant
            r <= 7,
            m0 == old(mat)@,
            forall|q: int| 0 <= q < r ==> correctable_16_11(#[trigger] row_of(m0, q)),
            forall|q: int|
                0 <= q < 8 ==> #[trigger] row_of(mat@, q) == if q < r {
                    corrected_16_11(row_of(m0, q))
                } else {
                    row_of(m0, q)
                },
        decreases 7 - r,
    {
        let mut word = get_row(mat, r);
        match hamming_16_11_correct(&mut word) {
            Ok(_) => {},
            Err(_) => {
                assert(!correctable_16_11(row_of(m0, r as int)));
                return false;
            },
        }
        set_row(mat, r, &word);
        r += 1;
    }
    true
}

/// Row `r` of the matrix.
fn get_row(mat: &[u8; RAW_BITS], r: usize) -> (word: [u8; 16])
    requires
        r < 8,
    ensures
        word@ == row_of(mat@, r as int),
{
    let mut word: [u8; 16] = [0u8; 16];
    let mut c: usize = 0;
    while c < 16
        invariant
            c <= 16,
            r < 8,
            forall|k: int| 0 <= k < c ==> word@[k] == row_of(mat@, r as int)[k],
        decreases 16 - c,
    {
        word[c] = mat[16 * r + c];
        c += 1;
    }
    assert(word@ =~= row_of(mat@, r as int));
    word
}

/// Recovers an LC from 128 bits, correcting one bit in each row.
pub fn decode_raw(raw: &[u8; RAW_BITS]) -> (r: Result<[u8; 9], DecodeError>)
    ensures
        match r {
            Ok(bytes) => decoded_raw(raw@) == Ok::<Seq<u8>, DecodeError>(bytes@),
            Err(e) => decoded_raw(raw@) == Err::<Seq<u8>, DecodeError>(e),
        },
{
    let mut mat: [u8; RAW_BITS] = [0u8; RAW_BITS];
    let mut p: usize = 0;
    while p < RAW_BITS
        invariant
            p <= 128,
            forall|k: int| 0 <= k < p ==> mat@[k] == matrix_of(raw@)[k],
        decreases 128 - p,
    {
        mat[p] = raw[8 * (p % 16) + p / 16];
        p += 1;
    }
    assert(mat@ =~= matrix_of(raw@));
    if !fix_rows(&mut mat) {
        return Err(DecodeError::Hamming);
    }
    let mut lc_bits: [u8; DATA_BITS] = [0u8; DATA_BITS];
    let mut i: usize = 0;
    while i < DATA_BITS
        invariant
            i <= 72,
            forall|r: int| 0 <= r < 7 ==> #[trigger] row_of(mat@, r) == fixed_row(raw@, r),
            forall|k: int| 0 <= k < i ==> lc_bits@[k] == received_lc(raw@)[k],
        decreases 72 - i,
    {
        let (r, c): (usize, usize) = if i < 22 {
            (i / 11, i % 11)
        } else {
            (2 + (i - 22) / 10, (i - 22) % 10)
        };
        assert(row_of(mat@, r as int)[c as int] == fixed_row(raw@, r as int)[c as int]);
        lc_bits[i] = mat[16 * r + c];
        i += 1;
    }
    assert(lc_bits@ =~= received_lc(raw@));
    let lc_bytes = lc_bytes_of(&lc_bits);
    proof {
        assert(row_of(mat@, 2)[10] == mat@[42]);
        assert(row_of(mat@, 3)[10] == mat@[58]);
        assert(row_of(mat@, 4)[10] == mat@[74]);
        assert(row_of(mat@, 5)[10] == mat@[90]);
        assert(row_of(mat@, 6)[10] == mat@[106]);
    }
    let received: u8 = (mat[42] << 4) | (mat[58] << 3) | (mat[74] << 2) | (mat[90] << 1) | mat[106];
    let computed: u8 = crc5_embedded(&lc_bytes);
    if received != computed {
        return Err(DecodeError::Crc { received, computed });
    }
    Ok(lc_bytes)
}

// ---------------------------------------------------------------------------
// Laws
// ---------------------------------------------------------------------------

proof fn lemma_five_bits(a: u8, b: u8, c: u8, d: u8, e: u8)
    by (bit_vector)
    requires
        a <= 1,
        b <= 1,
        c <= 1,
        d <= 1,
        e <= 1,
    ensures
        five_bits(a, b, c, d, e) == 16 * a + 8 * b + 4 * c + 2 * d + e,
{
}

proof fn lemma_parity_bits(d: Seq<u8>)
    requires
        d.len() >= 11,
        all_bits(d),
    ensures
        all_bits(parity_16_11(d)),
{
    broadcast use lemma_xor_bits;

}

/// The rows of the matrix of an LC are codewords.
proof fn lemma_row_words(lc: Seq<u8>, r: int)
    requires
        lc.len() == 72,
        all_bits(lc),
        0 <= r < 7,
    ensures
        is_codeword_16_11(info_row(lc, r) + parity_16_11(info_row(lc, r))),
{
    reveal(is_codeword_16_11);
    let info = info_row(lc, r);
    assert(all_bits(info));
    let w = info + parity_16_11(info);
    lemma_parity_bits(info);
    assert(parity_16_11(w) =~= parity_16_11(info));
    assert(w.subrange(11, 16) =~= parity_16_11(info));
}

/// The corrected rows of `raw` are those of `lc`.
spec fn rows_of_lc(lc: Seq<u8>, raw: Seq<u8>) -> bool {
    forall|r: int|
        0 <= r < 7 ==> #[trigger] fixed_row(raw, r) == info_row(lc, r) + parity_16_11(
            info_row(lc, r),
        )
}

proof fn lemma_rows_lc(lc: Seq<u8>, raw: Seq<u8>)
    requires
        lc.len() == 72,
        rows_of_lc(lc, raw),
    ensures
        received_lc(raw) == lc,
{
    assert forall|i: int| 0 <= i < 72 implies received_lc(raw)[i] == lc[i] by {
        let (r, c) = (row_of_bit(i), col_of_bit(i));
        assert(fixed_row(raw, r)[c] == info_row(lc, r)[c]);
        assert(lc_index(r, c) == i);
    }
    assert(received_lc(raw) =~= lc);
}

proof fn lemma_rows_crc_bit(lc: Seq<u8>, raw: Seq<u8>, r: int)
    requires
        rows_of_lc(lc, raw),
        2 <= r < 7,
    ensures
        fixed_row(raw, r)[10] == crc_bit(crc5(bytes_of(lc)), r),
{
    assert(fixed_row(raw, r)[10] == info_row(lc, r)[10]);
}

proof fn lemma_crc_digits(crc: int)
    requires
        0 <= crc < 31,
    ensures
        five_bits(
            crc_bit(crc, 2) as u8,
            crc_bit(crc, 3) as u8,
            crc_bit(crc, 4) as u8,
            crc_bit(crc, 5) as u8,
            crc_bit(crc, 6) as u8,
        ) == crc,
{
    lemma_five_bits(
        crc_bit(crc, 2) as u8,
        crc_bit(crc, 3) as u8,
        crc_bit(crc, 4) as u8,
        crc_bit(crc, 5) as u8,
        crc_bit(crc, 6) as u8,
    );
}

/// Bits whose corrected rows are those of `lc` decode to `lc`.
proof fn lemma_rows_decode(lc: Seq<u8>, raw: Seq<u8>)
    requires
        lc.len() == 72,
        rows_correctable(raw),
        rows_of_lc(lc, raw),
    ensures
        decoded_raw(raw) == Ok::<Seq<u8>, DecodeError>(bytes_of(lc)),
{
    lemma_rows_lc(lc, raw);
    let crc = crc5(bytes_of(lc));
    lemma_rows_crc_bit(lc, raw, 2);
    lemma_rows_crc_bit(lc, raw, 3);
    lemma_rows_crc_bit(lc, raw, 4);
    lemma_rows_crc_bit(lc, raw, 5);
    lemma_rows_crc_bit(lc, raw, 6);
    lemma_crc_digits(crc);
}

/// Law: what was encoded is decoded.
pub proof fn law_embedded_round_trip(lc: Seq<u8>, raw: Seq<u8>)
    requires
        lc.len() == 72,
        all_bits(lc),
        is_raw_of(lc, raw),
    ensures
        decoded_raw(raw) == Ok::<Seq<u8>, DecodeError>(bytes_of(lc)),
{
    assert forall|r: int| 0 <= r < 7 implies correctable_16_11(#[trigger] row_of(matrix_of(raw), r))
        && fixed_row(raw, r) == info_row(lc, r) + parity_16_11(info_row(lc, r)) by {
        lemma_row_words(lc, r);
        law_clean_16_11(row_of(matrix_of(raw), r));
    }
    lemma_rows_decode(lc, raw);
}

/// Law: what is sent for an LC is bits.
pub proof fn law_raw_is_bits(lc: Seq<u8>, raw: Seq<u8>)
    requires
        lc.len() == 72,
        all_bits(lc),
        is_raw_of(lc, raw),
    ensures
        all_bits(raw),
{
    reveal(is_codeword_16_11);
    let m = matrix_of(raw);
    assert forall|p: int| 0 <= p < 112 implies m[p] <= 1 by {
        let r = p / 16;
        lemma_row_words(lc, r);
        assert(row_of(m, r)[p % 16] == m[p]);
    }
    assert forall|c: int| 0 <= c < 16 implies column_parity(m, c) <= 1 by {
        broadcast use lemma_xor_bits;

    }
    assert forall|k: int| 0 <= k < 128 implies raw[k] <= 1 by {
        let p = 16 * (k % 8) + k / 8;
        assert(p % 16 == k / 8 && p / 16 == k % 8);
        assert(m[p] == raw[k]);
        if p >= 112 {
            assert(m[112 + (p - 112)] == column_parity(m, p - 112));
        }
    }
}

/// Flipping sent bit `k` flips one matrix position.
proof fn lemma_flip_matrix(raw: Seq<u8>, k: int)
    requires
        raw.len() == 128,
        0 <= k < 128,
    ensures
        forall|r: int|
            0 <= r < 8 ==> #[trigger] row_of(matrix_of(flip(raw, k)), r) == if r == k % 8 {
                flip(row_of(matrix_of(raw), r), k / 8)
            } else {
                row_of(matrix_of(raw), r)
            },
{
    let (m, n) = (matrix_of(raw), matrix_of(flip(raw, k)));
    assert forall|r: int| 0 <= r < 8 implies #[trigger] row_of(n, r) == if r == k % 8 {
        flip(row_of(m, r), k / 8)
    } else {
        row_of(m, r)
    } by {
        assert forall|c: int| 0 <= c < 16 implies row_of(n, r)[c] == (if r == k % 8 && c == k / 8 {
            row_of(m, r)[c] ^ 1
        } else {
            row_of(m, r)[c]
        }) by {
            let p = 16 * r + c;
            assert(p % 16 == c && p / 16 == r);
            let j = 8 * c + r;
            assert(j == k <==> r == k % 8 && c == k / 8);
        }
        assert(row_of(n, r) =~= if r == k % 8 {
            flip(row_of(m, r), k / 8)
        } else {
            row_of(m, r)
        });
    }
}

/// Law: one wrong bit, wherever it is, is put right.
pub proof fn law_embedded_single_flip(lc: Seq<u8>, raw: Seq<u8>, k: int)
    requires
        lc.len() == 72,
        all_bits(lc),
        is_raw_of(lc, raw),
        0 <= k < 128,
    ensures
        decoded_raw(flip(raw, k)) == Ok::<Seq<u8>, DecodeError>(bytes_of(lc)),
{
    let bad = flip(raw, k);
    lemma_flip_matrix(raw, k);
    assert forall|r: int| 0 <= r < 7 implies correctable_16_11(#[trigger] row_of(matrix_of(bad), r))
        && fixed_row(bad, r) == info_row(lc, r) + parity_16_11(info_row(lc, r)) by {
        lemma_row_words(lc, r);
        let w = row_of(matrix_of(raw), r);
        law_clean_16_11(w);
        if r == k % 8 {
            law_single_error_16_11(w, k / 8);
        }
    }
    lemma_rows_decode(lc, bad);
}

/// Law: two wrong bits never give another LC: they are reported where they
/// share one of the first seven rows, and put right otherwise.
pub proof fn law_embedded_double_flip(lc: Seq<u8>, raw: Seq<u8>, j: int, k: int)
    requires
        lc.len() == 72,
        all_bits(lc),
        is_raw_of(lc, raw),
        0 <= j < k < 128,
    ensures
        decoded_raw(flip(flip(raw, j), k)) == if j % 8 == k % 8 && j % 8 < 7 {
            Err::<Seq<u8>, DecodeError>(DecodeError::Hamming)
        } else {
            Ok::<Seq<u8>, DecodeError>(bytes_of(lc))
        },
{
    let once = flip(raw, j);
    let bad = flip(once, k);
    lemma_flip_matrix(raw, j);
    lemma_flip_matrix(once, k);
    if j % 8 == k % 8 && j % 8 < 7 {
        let r = j % 8;
        lemma_row_words(lc, r);
        assert(row_of(matrix_of(once), r) == flip(row_of(matrix_of(raw), r), j / 8));
        law_double_error_16_11(row_of(matrix_of(raw), r), j / 8, k / 8);
        assert(!correctable_16_11(row_of(matrix_of(bad), r)));
    } else {
        assert forall|r: int| 0 <= r < 7 implies correctable_16_11(
            #[trigger] row_of(matrix_of(bad), r),
        ) && fixed_row(bad, r) == info_row(lc, r) + parity_16_11(info_row(lc, r)) by {
            lemma_row_words(lc, r);
            let w = row_of(matrix_of(raw), r);
            assert(row_of(matrix_of(once), r) == if r == j % 8 {
                flip(w, j / 8)
            } else {
                w
            });
            law_clean_16_11(w);
            if r == k % 8 {
                law_single_error_16_11(w, k / 8);
            }
            if r == j % 8 {
                law_single_error_16_11(w, j / 8);
            }
        }
        lemma_rows_decode(lc, bad);
    }
}

/// Law: where the 72 bits of an LC and its checksum are among the 128 that are sent,
/// eight rows deep, column by column: eleven LC bits lead rows 0 and 1, ten LC bits
/// and a bit of the checksum rows 2 to 6, the most significant first.  The checksum
/// is the sum of the nine bytes modulo 31.
pub proof fn law_embedded_places(lc: Seq<u8>, raw: Seq<u8>)
    requires
        lc.len() == 72,
        all_bits(lc),
        is_raw_of(lc, raw),
    ensures
        raw.len() == 128,
        forall|c: int| 0 <= c < 11 ==> #[trigger] raw[8 * c] == lc[c],
        forall|c: int| 0 <= c < 11 ==> #[trigger] raw[8 * c + 1] == lc[11 + c],
        forall|r: int, c: int|
            2 <= r < 7 && 0 <= c < 10 ==> #[trigger] raw[8 * c + r] == lc[22 + 10 * (r - 2) + c],
        ({
            let b = bytes_of(lc);
            16 * raw[82] + 8 * raw[83] + 4 * raw[84] + 2 * raw[85] + raw[86] == (b[0] + b[1] + b[2] + b[3]
                + b[4] + b[5] + b[6] + b[7] + b[8]) % 31
        }),
{
    assert forall|c: int| 0 <= c < 11 implies #[trigger] raw[8 * c] == lc[c] by {
        lemma_raw_cell(lc, raw, 0, c);
    }
    assert forall|c: int| 0 <= c < 11 implies #[trigger] raw[8 * c + 1] == lc[11 + c] by {
        lemma_raw_cell(lc, raw, 1, c);
    }
    assert forall|r: int, c: int| 2 <= r < 7 && 0 <= c < 10 implies #[trigger] raw[8 * c + r] == lc[22
        + 10 * (r - 2) + c] by {
        lemma_raw_cell(lc, raw, r, c);
    }
    lemma_raw_cell(lc, raw, 2, 10);
    lemma_raw_cell(lc, raw, 3, 10);
    lemma_raw_cell(lc, raw, 4, 10);
    lemma_raw_cell(lc, raw, 5, 10);
    lemma_raw_cell(lc, raw, 6, 10);
    lemma_crc_spelled(crc5(bytes_of(lc)));
}

proof fn lemma_crc_spelled(crc: int)
    requires
        0 <= crc < 31,
    ensures
        crc == 16 * (crc / 16 % 2) + 8 * (crc / 8 % 2) + 4 * (crc / 4 % 2) + 2 * (crc / 2 % 2) + crc % 2,
{
}

/// What is sent for row `r` and column `c` of the information part.
proof fn lemma_raw_cell(lc: Seq<u8>, raw: Seq<u8>, r: int, c: int)
    requires
        is_raw_of(lc, raw),
        0 <= r < 7,
        0 <= c < 11,
    ensures
        raw[8 * c + r] == (if r >= 2 && c == 10 {
            crc_bit(crc5(bytes_of(lc)), r) as u8
        } else {
            lc[lc_index(r, c)]
        }),
{
    let m = matrix_of(raw);
    assert(row_of(m, r) == info_row(lc, r) + parity_16_11(info_row(lc, r)));
    assert(row_of(m, r)[c] == m[16 * r + c]);
    assert((16 * r + c) % 16 == c && (16 * r + c) / 16 == r);
    assert(info_row(lc, r)[c] == row_of(m, r)[c]);
}

/// Law: where the parity of an embedded LC is: columns 11 to 15 of rows 0 to 6 are the
/// Hamming(16,11) parity of their row, and row 7 is the parity of its column.
pub proof fn law_embedded_parity(lc: Seq<u8>, raw: Seq<u8>, r: int, c: int, row: Seq<u8>)
    requires
        is_raw_of(lc, raw),
        0 <= r < 7,
        0 <= c < 16,
        row.len() == 16,
        forall|k: int| 0 <= k < 16 ==> #[trigger] row[k] == raw[8 * k + r],
    ensures
        row[11] == row[0] ^ row[1] ^ row[2] ^ row[3] ^ row[5] ^ row[7] ^ row[8],
        row[12] == row[1] ^ row[2] ^ row[3] ^ row[4] ^ row[6] ^ row[8] ^ row[9],
        row[13] == row[2] ^ row[3] ^ row[4] ^ row[5] ^ row[7] ^ row[9] ^ row[10],
        row[14] == row[0] ^ row[1] ^ row[2] ^ row[4] ^ row[6] ^ row[7] ^ row[10],
        row[15] == row[0] ^ row[2] ^ row[5] ^ row[6] ^ row[8] ^ row[9] ^ row[10],
        raw[8 * c + 7] == raw[8 * c] ^ raw[8 * c + 1] ^ raw[8 * c + 2] ^ raw[8 * c + 3] ^ raw[8 * c + 4]
            ^ raw[8 * c + 5] ^ raw[8 * c + 6],
{
    let m = matrix_of(raw);
    let info = info_row(lc, r);
    assert(row_of(m, r) == info + parity_16_11(info));
    assert forall|k: int| 0 <= k < 16 implies row_of(m, r)[k] == #[trigger] row[k] by {
        assert(row_of(m, r)[k] == m[16 * r + k]);
        assert((16 * r + k) % 16 == k && (16 * r + k) / 16 == r);
    }
    assert forall|k: int| 0 <= k < 11 implies #[trigger] info[k] == row[k] by {
        assert(row_of(m, r)[k] == info[k]);
    }
    let p = parity_16_11(info);
    assert(row_of(m, r)[11] == p[0] && row_of(m, r)[12] == p[1] && row_of(m, r)[13] == p[2]);
    assert(row_of(m, r)[14] == p[3] && row_of(m, r)[15] == p[4]);
    assert(row[11] == p[0] && row[12] == p[1] && row[13] == p[2] && row[14] == p[3] && row[15] == p[4]);
    assert(m[112 + c] == column_parity(m, c));
    assert((112 + c) % 16 == c && (112 + c) / 16 == 7);
    assert(c % 16 == c && c / 16 == 0);
    assert((16 + c) % 16 == c && (16 + c) / 16 == 1);
    assert((32 + c) % 16 == c && (32 + c) / 16 == 2);
    assert((48 + c) % 16 == c && (48 + c) / 16 == 3);
    assert((64 + c) % 16 == c && (64 + c) / 16 == 4);
    assert((80 + c) % 16 == c && (80 + c) / 16 == 5);
    assert((96 + c) % 16 == c && (96 + c) / 16 == 6);
}

} // verus!
