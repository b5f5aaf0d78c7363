//! BPTC(196,96): the product code of voice LC headers and terminators.
//!
//! A codeword is a matrix of 13 rows and 15 columns behind one reserved bit.
//! Rows 0 to 8 are Hamming(15,11) codewords, all columns are Hamming(13,9)
//! codewords, and the 96 data bits fill the information part of the matrix but
//! for its first three cells, which are zero.  Matrix position `p` is sent as
//! bit `181 p mod 196`.

use vstd::arithmetic::div_mod::{
    lemma_fundamental_div_mod, lemma_mod_multiples_vanish, lemma_small_mod,
};
use vstd::prelude::*;

use crate::bits::{
    bits_of, bytes_of, get_bit, get_byte, law_bits_of_bytes_of, law_bytes_of_bits_of,
    lemma_bit_range,
};
use crate::bytes::{be24, id_to_24_be, u24_from_be, MAX_24BIT};
use crate::dmrd::DMR_DATA_SIZE;
use crate::fec::{
    all_bits, correctable_13_9, corrected_13_9, corrected_15_11, flip, golay_20_8_parity,
    golay_parity, golay_word, hamming_13_9_correct, hamming_13_9_parity, hamming_15_11_correct,
    hamming_15_11_parity, is_codeword_13_9, is_codeword_15_11, law_clean_13_9, law_clean_15_11,
    law_single_error_13_9, law_single_error_15_11, lemma_xor_bits, parity_13_9, parity_15_11,
    syndrome_13_9, syndrome_15_11,
};
use crate::rs::{
    is_codeword, law_correction_unique, one_symbol_apart, rs_12_9_correct, rs_12_9_fec,
    rs_12_9_syndromes, syndromes, unmasked, LC_HEADER_MASK, LC_TERMINATOR_MASK,
};

verus! {

/// Bits of a codeword.
pub const BPTC_BITS: usize = 196;

/// Data bits of a codeword.
pub const DATA_BITS: usize = 96;

/// Columns of the matrix.
pub const MATRIX_COLS: usize = 15;

/// Matrix positions of the data bits.
pub const DATA_POSITIONS: [usize; DATA_BITS] = [
    4, 5, 6, 7, 8, 9, 10, 11, 16, 17, 18, 19, 20, 21, 22, 23, 24, 25, 26, 31, 32, 33, 34, 35, 36, 37,
    38, 39, 40, 41, 46, 47, 48, 49, 50, 51, 52, 53, 54, 55, 56, 61, 62, 63, 64, 65, 66, 67, 68, 69,
    70, 71, 76, 77, 78, 79, 80, 81, 82, 83, 84, 85, 86, 91, 92, 93, 94, 95, 96, 97, 98, 99, 100, 101,
    106, 107, 108, 109, 110, 111, 112, 113, 114, 115, 116, 121, 122, 123, 124, 125, 126, 127, 128,
    129, 130, 131,
];

/// Row of data bit `i`.
pub open spec fn data_row(i: int) -> int {
    (i + 3) / 11
}

/// Column of data bit `i`.
pub open spec fn data_col(i: int) -> int {
    (i + 3) % 11
}

/// The bit in row `r` and column `c` of a matrix.
pub open spec fn cell(m: Seq<u8>, r: int, c: int) -> u8 {
    m[1 + 15 * r + c]
}

/// Row `r` of a matrix.
pub open spec fn row_of(m: Seq<u8>, r: int) -> Seq<u8> {
    Seq::new(15, |c: int| cell(m, r, c))
}

/// Column `c` of a matrix.
pub open spec fn col_of(m: Seq<u8>, c: int) -> Seq<u8> {
    Seq::new(13, |r: int| cell(m, r, c))
}

/// The bit that is sent for matrix position `p`.
pub open spec fn sent_as(p: int) -> int {
    p * 181 % 196
}

/// The matrix that 196 received bits carry.
pub open spec fn deinterleaved(w: Seq<u8>) -> Seq<u8> {
    Seq::new(196, |p: int| w[sent_as(p)])
}

/// The information bits of row `r`.
pub open spec fn info_row(data: Seq<u8>, r: int) -> Seq<u8> {
    Seq::new(
        11,
        |c: int|
            if 11 * r + c < 3 {
                0
            } else {
                data[11 * r + c - 3]
            },
    )
}

/// Row `r` of the first nine: information bits and their parity.
pub open spec fn data_row_word(data: Seq<u8>, r: int) -> Seq<u8> {
    info_row(data, r) + parity_15_11(info_row(data, r))
}

/// The first nine bits of column `c`.
pub open spec fn column_head(data: Seq<u8>, c: int) -> Seq<u8> {
    Seq::new(9, |r: int| data_row_word(data, r)[c])
}

/// Column `c`: nine bits and their parity.
pub open spec fn column_word(data: Seq<u8>, c: int) -> Seq<u8> {
    column_head(data, c) + parity_13_9(column_head(data, c))
}

/// `m` is the matrix of `data`.
pub open spec fn is_matrix_of(data: Seq<u8>, m: Seq<u8>) -> bool {
    &&& m.len() == 196
    &&& m[0] == 0
    &&& forall|r: int, c: int|
        0 <= r < 13 && 0 <= c < 15 ==> #[trigger] cell(m, r, c) == column_word(data, c)[r]
}

/// `w` is the codeword of `data`.
pub open spec fn is_bptc_of(data: Seq<u8>, w: Seq<u8>) -> bool {
    w.len() == 196 && is_matrix_of(data, deinterleaved(w))
}

/// `sent_as` is a permutation with the inverse `13 q mod 196`.
proof fn lemma_sent_as(p: int)
    requires
        0 <= p < 196,
    ensures
        0 <= sent_as(p) < 196,
        sent_as(p) * 13 % 196 == p,
        sent_as(p * 13 % 196) == p,
        0 <= p * 13 % 196 < 196,
{
    let s = p * 181 % 196;
    let q = p * 181 / 196;
    lemma_fundamental_div_mod(p * 181, 196);
    assert(s * 13 == 196 * (12 * p - 13 * q) + p);
    lemma_mod_multiples_vanish(12 * p - 13 * q, p, 196);
    lemma_small_mod(p as nat, 196);
    let t = p * 13 % 196;
    let u = p * 13 / 196;
    lemma_fundamental_div_mod(p * 13, 196);
    assert(t * 181 == 196 * (12 * p - 181 * u) + p);
    lemma_mod_multiples_vanish(12 * p - 181 * u, p, 196);
}

proof fn lemma_data_positions(i: int)
    requires
        0 <= i < 96,
    ensures
        DATA_POSITIONS@[i] == 1 + 15 * data_row(i) + data_col(i),
{
}

/// Encodes 96 data bits.
pub fn bptc_encode(data: &[u8; DATA_BITS]) -> (r: [u8; BPTC_BITS])
    ensures
        is_bptc_of(data@, r@),
{
    let mut matrix: [u8; BPTC_BITS] = [0u8; BPTC_BITS];

    let mut i: usize = 0;
    while i < DATA_BITS
        invariant
            i <= DATA_BITS,
            matrix@[0] == 0,
            forall|r: int, c: int|
                0 <= r < 9 && 0 <= c < 11 && 11 * r + c < i + 3 ==> #[trigger] cell(matrix@, r, c)
                    == info_row(data@, r)[c],
            i == 0 ==> forall|p: int| 0 <= p < 196 ==> matrix@[p] == 0,
            i > 0 ==> cell(matrix@, 0, 0) == 0 && cell(matrix@, 0, 1) == 0 && cell(matrix@, 0, 2) == 0,
        decreases DATA_BITS - i,
    {
        proof {
            lemma_data_positions(i as int);
        }
        let ghost before = matrix@;
        let pos: usize = DATA_POSITIONS[i];
        matrix[pos] = data[i];
        assert forall|r: int, c: int|
            0 <= r < 9 && 0 <= c < 11 && 11 * r + c < i + 4 implies #[trigger] cell(matrix@, r, c)
            == info_row(data@, r)[c] by {
            assert(cell(before, r, c) == before[1 + 15 * r + c]);
        }
        i += 1;
    }

    let mut row: usize = 0;
    while row < 9
        invariant
            row <= 9,
            matrix@[0] == 0,
            forall|r: int, c: int|
                0 <= r < 9 && 0 <= c < 11 ==> #[trigger] cell(matrix@, r, c) == info_row(data@, r)[c],
            forall|r: int, c: int|
                0 <= r < row && 0 <= c < 15 ==> #[trigger] cell(matrix@, r, c) == data_row_word(
                    data@,
                    r,
                )[c],
        decreases 9 - row,
    {
        let base: usize = 1 + row * MATRIX_COLS;
        let d: [u8; 11] = [
            matrix[base],
            matrix[base + 1],
            matrix[base + 2],
            matrix[base + 3],
            matrix[base + 4],
            matrix[base + 5],
            matrix[base + 6],
            matrix[base + 7],
            matrix[base + 8],
            matrix[base + 9],
            matrix[base + 10],
        ];
        assert(d@ =~= info_row(data@, row as int)) by {
            assert forall|c: int| 0 <= c < 11 implies d@[c] == info_row(data@, row as int)[c] by {
                assert(cell(matrix@, row as int, c) == info_row(data@, row as int)[c]);
            }
        }
        let p = hamming_15_11_parity(&d);
        let ghost before = matrix@;
        matrix[base + 11] = p[0];
        matrix[base + 12] = p[1];
        matrix[base + 13] = p[2];
        matrix[base + 14] = p[3];
        proof {
            assert forall|r: int, c: int| 0 <= r < 9 && 0 <= c < 11 implies #[trigger] cell(
                matrix@,
                r,
                c,
            ) == info_row(data@, r)[c] by {
                assert(cell(before, r, c) == info_row(data@, r)[c]);
            }
            assert forall|r: int, c: int| 0 <= r < row + 1 && 0 <= c < 15 implies #[trigger] cell(
                matrix@,
                r,
                c,
            ) == data_row_word(data@, r)[c] by {
                assert(cell(before, r, c) == before[1 + 15 * r + c]);
                if r == row {
                    assert(c < 11 ==> cell(before, r, c) == info_row(data@, r)[c]);
                }
            }
        }
        row += 1;
    }

    let mut col: usize = 0;
    while col < MATRIX_COLS
        invariant
            col <= 15,
            matrix@[0] == 0,
            forall|r: int, c: int|
                0 <= r < 9 && 0 <= c < 15 ==> #[trigger] cell(matrix@, r, c) == data_row_word(
                    data@,
                    r,
                )[c],
            forall|r: int, c: int|
                0 <= r < 13 && 0 <= c < col ==> #[trigger] cell(matrix@, r, c) == column_word(
                    data@,
                    c,
                )[r],
        decreases 15 - col,
    {
        let d: [u8; 9] = [
            matrix[col + 1],
            matrix[col + 16],
            matrix[col + 31],
            matrix[col + 46],
            matrix[col + 61],
            matrix[col + 76],
            matrix[col + 91],
            matrix[col + 106],
            matrix[col + 121],
        ];
        assert(d@ =~= column_head(data@, col as int)) by {
            assert forall|r: int| 0 <= r < 9 implies d@[r] == column_head(data@, col as int)[r] by {
                assert(cell(matrix@, r, col as int) == data_row_word(data@, r)[col as int]);
            }
        }
        let p = hamming_13_9_parity(&d);
        let ghost before = matrix@;
        matrix[col + 136] = p[0];
        matrix[col + 151] = p[1];
        matrix[col + 166] = p[2];
        matrix[col + 181] = p[3];
        proof {
            assert forall|r: int, c: int| 0 <= r < 9 && 0 <= c < 15 implies #[trigger] cell(
                matrix@,
                r,
                c,
            ) == data_row_word(data@, r)[c] by {
                assert(cell(before, r, c) == data_row_word(data@, r)[c]);
            }
            assert forall|r: int, c: int| 0 <= r < 13 && 0 <= c < col + 1 implies #[trigger] cell(
                matrix@,
                r,
                c,
            ) == column_word(data@, c)[r] by {
                assert(cell(before, r, c) == before[1 + 15 * r + c]);
                if c == col && r < 9 {
                    assert(cell(before, r, c) == data_row_word(data@, r)[c]);
                }
            }
        }
        col += 1;
    }

    let mut out: [u8; BPTC_BITS] = [0u8; BPTC_BITS];
    let mut q: usize = 0;
    while q < BPTC_BITS
        invariant
            q <= 196,
            forall|k: int| 0 <= k < q ==> out@[k] == matrix@[k * 13 % 196],
        decreases 196 - q,
    {
        out[q] = matrix[q * 13 % BPTC_BITS];
        q += 1;
    }
    proof {
        let m = deinterleaved(out@);
        assert forall|p: int| 0 <= p < 196 implies m[p] == matrix@[p] by {
            lemma_sent_as(p);
        }
        assert(m =~= matrix@);
    }
    out
}

// ---------------------------------------------------------------------------
// Decoding
// ---------------------------------------------------------------------------

/// A matrix after the row pass: rows 0 to 8 corrected, the rest kept.
pub open spec fn rows_fixed(m: Seq<u8>) -> Seq<u8> {
    Seq::new(
        196,
        |p: int|
            if 1 <= p < 136 {
                corrected_15_11(row_of(m, (p - 1) / 15))[(p - 1) % 15]
            } else {
                m[p]
            },
    )
}

/// Every column is correctable after the row pass.
pub open spec fn decodable(w: Seq<u8>) -> bool {
    forall|c: int|
        0 <= c < 15 ==> correctable_13_9(#[trigger] col_of(rows_fixed(deinterleaved(w)), c))
}

/// The data bits after the row and the column pass.
pub open spec fn decoded(w: Seq<u8>) -> Seq<u8> {
    Seq::new(
        96,
        |i: int|
            corrected_13_9(col_of(rows_fixed(deinterleaved(w)), data_col(i)))[data_row(i)],
    )
}

/// How many of the first `n` rows have an error to correct.
pub open spec fn rows_in_error(m: Seq<u8>, n: int) -> int
    decreases n,
{
    if n <= 0 {
        0
    } else {
        rows_in_error(m, n - 1) + if syndrome_15_11(row_of(m, n - 1)) != 0 {
            1int
        } else {
            0
        }
    }
}

/// How many of the first `n` columns have an error to correct.
pub open spec fn columns_in_error(m: Seq<u8>, n: int) -> int
    decreases n,
{
    if n <= 0 {
        0
    } else {
        columns_in_error(m, n - 1) + if syndrome_13_9(col_of(m, n - 1)) != 0 {
            1int
        } else {
            0
        }
    }
}

/// How many bits the two passes flip.
pub open spec fn flips(w: Seq<u8>) -> int {
    rows_in_error(deinterleaved(w), 9) + columns_in_error(rows_fixed(deinterleaved(w)), 15)
}

/// Column `c` of the matrix.
fn get_column(matrix: &[u8; BPTC_BITS], c: usize) -> (word: [u8; 13])
    requires
        c < 15,
    ensures
        word@ == col_of(matrix@, c as int),
{
    let mut word: [u8; 13] = [0u8; 13];
    let mut r: usize = 0;
    while r < 13
        invariant
            r <= 13,
            c < 15,
            forall|k: int| 0 <= k < r ==> word@[k] == cell(matrix@, k, c as int),
        decreases 13 - r,
    {
        word[r] = matrix[1 + r * MATRIX_COLS + c];
        r += 1;
    }
    assert(word@ =~= col_of(matrix@, c as int));
    word
}

/// Replaces column `c` of the matrix.
fn set_column(matrix: &mut [u8; BPTC_BITS], c: usize, word: &[u8; 13])
    requires
        c < 15,
    ensures
        forall|r: int, k: int|
            0 <= r < 13 && 0 <= k < 15 ==> #[trigger] cell(final(matrix)@, r, k) == if k == c {
                word@[r]
            } else {
                cell(old(matrix)@, r, k)
            },
{
    let ghost before = matrix@;
    let mut r: usize = 0;
    while r < 13
        invariant
            r <= 13,
            c < 15,
            forall|q: int, k: int|
                0 <= q < 13 && 0 <= k < 15 ==> #[trigger] cell(matrix@, q, k) == if k == c && q < r {
                    word@[q]
                } else {
                    cell(before, q, k)
                },
        decreases 13 - r,
    {
        let ghost prior = matrix@;
        matrix[1 + r * MATRIX_COLS + c] = word[r];
        assert forall|q: int, k: int| 0 <= q < 13 && 0 <= k < 15 implies #[trigger] cell(
            matrix@,
            q,
            k,
        ) == if k == c && q < r + 1 {
            word@[q]
        } else {
            cell(before, q, k)
        } by {
            assert(cell(prior, q, k) == prior[1 + 15 * q + k]);
        }
        r += 1;
    }
}

/// Row `r` of the matrix.
fn get_row(matrix: &[u8; BPTC_BITS], r: usize) -> (word: [u8; 15])
    requires
        r < 13,
    ensures
        word@ == row_of(matrix@, r as int),
{
    let mut word: [u8; 15] = [0u8; 15];
    let mut c: usize = 0;
    while c < 15
        invariant
            c <= 15,
            r < 13,
            forall|k: int| 0 <= k < c ==> word@[k] == cell(matrix@, r as int, k),
        decreases 15 - c,
    {
        word[c] = matrix[1 + r * MATRIX_COLS + c];
        c += 1;
    }
    assert(word@ =~= row_of(matrix@, r as int));
    word
}

/// Replaces row `r` of the matrix.
fn set_row(matrix: &mut [u8; BPTC_BITS], r: usize, word: &[u8; 15])
    requires
        r < 13,
    ensures
        forall|q: int, k: int|
            0 <= q < 13 && 0 <= k < 15 ==> #[trigger] cell(final(matrix)@, q, k) == if q == r {
                word@[k]
            } else {
                cell(old(matrix)@, q, k)
            },
{
    let ghost before = matrix@;
    let mut c: usize = 0;
    while c < 15
        invariant
            c <= 15,
            r < 13,
            forall|q: int, k: int|
                0 <= q < 13 && 0 <= k < 15 ==> #[trigger] cell(matrix@, q, k) == if q == r && k < c {
                    word@[k]
                } else {
                    cell(before, q, k)
                },
        decreases 15 - c,
    {
        let ghost prior = matrix@;
        matrix[1 + r * MATRIX_COLS + c] = word[c];
        assert forall|q: int, k: int| 0 <= q < 13 && 0 <= k < 15 implies #[trigger] cell(
            matrix@,
            q,
            k,
        ) == if q == r && k < c + 1 {
            word@[k]
        } else {
            cell(before, q, k)
        } by {
            assert(cell(prior, q, k) == prior[1 + 15 * q + k]);
        }
        c += 1;
    }
}

/// The cells of `m` are those of `n`.
spec fn same_cells(m: Seq<u8>, n: Seq<u8>) -> bool {
    forall|r: int, c: int| 0 <= r < 13 && 0 <= c < 15 ==> #[trigger] cell(m, r, c) == cell(n, r, c)
}

/// The row pass; counts the rows that had an error.
fn fix_rows(matrix: &mut [u8; BPTC_BITS]) -> (n: u8)
    ensures
        same_cells(final(matrix)@, rows_fixed(old(matrix)@)),
        n == rows_in_error(old(matrix)@, 9),
        n <= 9,
{
    let ghost m0 = matrix@;
    let mut n: u8 = 0;
    let mut row: usize = 0;
    while row < 9
        invariant
            row <= 9,
            forall|r: int, c: int|
                0 <= r < 13 && 0 <= c < 15 ==> #[trigger] cell(matrix@, r, c) == if r < row {
                    corrected_15_11(row_of(m0, r))[c]
                } else {
                    cell(m0, r, c)
                },
            n == rows_in_error(m0, row as int),
            n <= row,
        decreases 9 - row,
    {
        let mut word = get_row(matrix, row);
        assert(word@ =~= row_of(m0, row as int)) by {
            assert forall|c: int| 0 <= c < 15 implies word@[c] == row_of(m0, row as int)[c] by {
                assert(cell(matrix@, row as int, c) == cell(m0, row as int, c));
            }
        }
        if hamming_15_11_correct(&mut word) {
            n += 1;
        }
        set_row(matrix, row, &word);
        row += 1;
    }
    assert forall|r: int, c: int| 0 <= r < 13 && 0 <= c < 15 implies #[trigger] cell(matrix@, r, c)
        == cell(rows_fixed(m0), r, c) by {
        let p = 1 + 15 * r + c;
        assert((p - 1) / 15 == r && (p - 1) % 15 == c);
    }
    n
}

/// The column pass; counts the columns that had an error.
fn fix_columns(matrix: &mut [u8; BPTC_BITS]) -> (n: Option<u8>)
    ensures
        n is Some <==> forall|c: int|
            0 <= c < 15 ==> correctable_13_9(#[trigger] col_of(old(matrix)@, c)),
        n matches Some(k) ==> k == columns_in_error(old(matrix)@, 15) && k <= 15 && forall|
            r: int,
            c: int,
        |
            0 <= r < 13 && 0 <= c < 15 ==> #[trigger] cell(final(matrix)@, r, c) == corrected_13_9(
                col_of(old(matrix)@, c),
            )[r],
{
    let ghost m1 = matrix@;
    let mut n: u8 = 0;
    let mut col: usize = 0;
    while col < 15
        invariant
            col <= 15,
            m1 == old(matrix)@,
            forall|r: int, c: int|
                0 <= r < 13 && 0 <= c < 15 ==> #[trigger] cell(matrix@, r, c) == if c < col {
                    corrected_13_9(col_of(m1, c))[r]
                } else {
                    cell(m1, r, c)
                },
            forall|c: int| 0 <= c < col ==> correctable_13_9(#[trigger] col_of(m1, c)),
            n == columns_in_error(m1, col as int),
            n <= col,
        decreases 15 - col,
    {
        let mut word = get_column(matrix, col);
        assert(word@ =~= col_of(m1, col as int)) by {
            assert forall|r: int| 0 <= r < 13 implies word@[r] == col_of(m1, col as int)[r] by {
                assert(cell(matrix@, r, col as int) == cell(m1, r, col as int));
            }
        }
        match hamming_13_9_correct(&mut word) {
            Ok(flipped) => {
                if flipped {
                    n += 1;
                }
            },
            Err(_) => {
                assert(!correctable_13_9(col_of(m1, col as int)));
                return None;
            },
        }
        set_column(matrix, col, &word);
        col += 1;
    }
    Some(n)
}

proof fn lemma_same_columns(m: Seq<u8>, n: Seq<u8>, k: int)
    requires
        same_cells(m, n),
        0 <= k <= 15,
    ensures
        forall|c: int| 0 <= c < 15 ==> #[trigger] col_of(m, c) == col_of(n, c),
        columns_in_error(m, k) == columns_in_error(n, k),
    decreases k,
{
    assert forall|c: int| 0 <= c < 15 implies #[trigger] col_of(m, c) == col_of(n, c) by {
        assert forall|r: int| 0 <= r < 13 implies col_of(m, c)[r] == col_of(n, c)[r] by {
            assert(cell(m, r, c) == cell(n, r, c));
        }
        assert(col_of(m, c) =~= col_of(n, c));
    }
    if k > 0 {
        lemma_same_columns(m, n, k - 1);
    }
}

/// The data bits of the matrix.
fn read_data(matrix: &[u8; BPTC_BITS]) -> (data: [u8; DATA_BITS])
    ensures
        forall|i: int|
            0 <= i < 96 ==> #[trigger] data@[i] == cell(matrix@, data_row(i), data_col(i)),
{
    let mut data: [u8; DATA_BITS] = [0u8; DATA_BITS];
    let mut i: usize = 0;
    while i < DATA_BITS
        invariant
            i <= 96,
            forall|k: int|
                0 <= k < i ==> #[trigger] data@[k] == cell(matrix@, data_row(k), data_col(k)),
        decreases 96 - i,
    {
        proof {
            lemma_data_positions(i as int);
        }
        data[i] = matrix[DATA_POSITIONS[i]];
        i += 1;
    }
    data
}

/// Decodes 196 bits, correcting one bit in each row and then one in each
/// column, and counts the bits flipped.  A column that no single flip mends
/// gives `None`.
pub fn bptc_decode_correct(interleaved: &[u8; BPTC_BITS]) -> (r: Option<([u8; DATA_BITS], u8)>)
    ensures
        r is Some <==> decodable(interleaved@),
        r matches Some(out) ==> out.0@ == decoded(interleaved@) && out.1 == flips(interleaved@),
{
    let mut matrix: [u8; BPTC_BITS] = [0u8; BPTC_BITS];
    let mut p: usize = 0;
    while p < BPTC_BITS
        invariant
            p <= 196,
            forall|k: int| 0 <= k < p ==> matrix@[k] == deinterleaved(interleaved@)[k],
        decreases 196 - p,
    {
        matrix[p] = interleaved[p * 181 % BPTC_BITS];
        p += 1;
    }
    let ghost m1 = rows_fixed(deinterleaved(interleaved@));
    assert(matrix@ =~= deinterleaved(interleaved@));
    let rows: u8 = fix_rows(&mut matrix);
    proof {
        lemma_same_columns(matrix@, m1, 15);
    }
    let ghost m2 = matrix@;
    let columns: u8 = match fix_columns(&mut matrix) {
        Some(n) => n,
        None => return None,
    };
    let data = read_data(&matrix);
    assert forall|i: int| 0 <= i < 96 implies data@[i] == decoded(interleaved@)[i] by {
        assert(data@[i] == cell(matrix@, data_row(i), data_col(i)));
        assert(col_of(m1, data_col(i)) == col_of(m2, data_col(i)));
    }
    assert(data@ =~= decoded(interleaved@));
    assert forall|c: int| 0 <= c < 15 implies correctable_13_9(#[trigger] col_of(m1, c)) by {
        assert(col_of(m2, c) == col_of(m1, c));
    }
    Some((data, rows + columns))
}

// ---------------------------------------------------------------------------
// Laws of the code
// ---------------------------------------------------------------------------

proof fn lemma_parity_bits_15(d: Seq<u8>)
    requires
        d.len() >= 11,
        all_bits(d),
    ensures
        all_bits(parity_15_11(d)),
{
    broadcast use lemma_xor_bits;

}

proof fn lemma_parity_bits_13(d: Seq<u8>)
    requires
        d.len() >= 9,
        all_bits(d),
    ensures
        all_bits(parity_13_9(d)),
{
    broadcast use lemma_xor_bits;

}

/// Rows and columns of the matrix of `data` are codewords.
proof fn lemma_words(data: Seq<u8>)
    requires
        data.len() == 96,
        all_bits(data),
    ensures
        forall|r: int| 0 <= r < 9 ==> is_codeword_15_11(#[trigger] data_row_word(data, r)),
        forall|c: int| 0 <= c < 15 ==> is_codeword_13_9(#[trigger] column_word(data, c)),
{
    reveal(is_codeword_15_11);
    reveal(is_codeword_13_9);
    assert forall|r: int| 0 <= r < 9 implies is_codeword_15_11(#[trigger] data_row_word(data, r)) by {
        let info = info_row(data, r);
        let w = data_row_word(data, r);
        lemma_parity_bits_15(info);
        assert(parity_15_11(w) =~= parity_15_11(info));
        assert(w.subrange(11, 15) =~= parity_15_11(info));
    }
    assert forall|c: int| 0 <= c < 15 implies is_codeword_13_9(#[trigger] column_word(data, c)) by {
        let head = column_head(data, c);
        let w = column_word(data, c);
        assert forall|r: int| 0 <= r < 9 implies head[r] <= 1 by {
            assert(is_codeword_15_11(data_row_word(data, r)));
        }
        lemma_parity_bits_13(head);
        assert(parity_13_9(w) =~= parity_13_9(head));
        assert(w.subrange(9, 13) =~= parity_13_9(head));
    }
}

proof fn lemma_matrix_lines(data: Seq<u8>, m: Seq<u8>)
    requires
        is_matrix_of(data, m),
    ensures
        forall|r: int| 0 <= r < 9 ==> #[trigger] row_of(m, r) == data_row_word(data, r),
        forall|c: int| 0 <= c < 15 ==> #[trigger] col_of(m, c) == column_word(data, c),
{
    assert forall|r: int| 0 <= r < 9 implies #[trigger] row_of(m, r) == data_row_word(data, r) by {
        assert forall|c: int| 0 <= c < 15 implies row_of(m, r)[c] == data_row_word(data, r)[c] by {
            assert(cell(m, r, c) == column_word(data, c)[r]);
            assert(column_word(data, c)[r] == column_head(data, c)[r]);
        }
        assert(row_of(m, r) =~= data_row_word(data, r));
    }
    assert forall|c: int| 0 <= c < 15 implies #[trigger] col_of(m, c) == column_word(data, c) by {
        assert forall|r: int| 0 <= r < 13 implies col_of(m, c)[r] == column_word(data, c)[r] by {
            assert(cell(m, r, c) == column_word(data, c)[r]);
        }
        assert(col_of(m, c) =~= column_word(data, c));
    }
}

proof fn lemma_one_row_error(m: Seq<u8>, n: int, bad: int)
    requires
        0 <= bad,
        forall|r: int|
            0 <= r < n ==> (syndrome_15_11(#[trigger] row_of(m, r)) == 0 <==> r != bad),
    ensures
        rows_in_error(m, n) == if bad < n {
            1int
        } else {
            0
        },
    decreases n,
{
    if n > 0 {
        lemma_one_row_error(m, n - 1, bad);
        assert(syndrome_15_11(row_of(m, n - 1)) == 0 <==> n - 1 != bad);
    }
}

proof fn lemma_one_column_error(m: Seq<u8>, n: int, bad: int)
    requires
        0 <= bad,
        forall|c: int| 0 <= c < n ==> (syndrome_13_9(#[trigger] col_of(m, c)) == 0 <==> c != bad),
    ensures
        columns_in_error(m, n) == if bad < n {
            1int
        } else {
            0
        },
    decreases n,
{
    if n > 0 {
        lemma_one_column_error(m, n - 1, bad);
        assert(syndrome_13_9(col_of(m, n - 1)) == 0 <==> n - 1 != bad);
    }
}

/// The data bits of a matrix are where they belong.
proof fn lemma_data_cells(data: Seq<u8>, i: int)
    requires
        data.len() == 96,
        0 <= i < 96,
    ensures
        column_word(data, data_col(i))[data_row(i)] == data[i],
        0 <= data_row(i) < 9,
        0 <= data_col(i) < 11,
{
    let (r, c) = (data_row(i), data_col(i));
    assert(11 * r + c == i + 3);
    assert(column_head(data, c)[r] == info_row(data, r)[c]);
}

/// A matrix whose columns are those of `data` decodes to `data`.
proof fn lemma_clean_columns(data: Seq<u8>, w: Seq<u8>)
    requires
        data.len() == 96,
        all_bits(data),
        forall|c: int|
            0 <= c < 15 ==> #[trigger] corrected_13_9(col_of(rows_fixed(deinterleaved(w)), c))
                == column_word(data, c),
    ensures
        decoded(w) == data,
{
    assert forall|i: int| 0 <= i < 96 implies decoded(w)[i] == data[i] by {
        lemma_data_cells(data, i);
    }
    assert(decoded(w) =~= data);
}

/// A matrix with correct rows keeps its columns in the row pass.
proof fn lemma_rows_kept(m: Seq<u8>)
    requires
        m.len() == 196,
        forall|r: int| 0 <= r < 9 ==> corrected_15_11(#[trigger] row_of(m, r)) == row_of(m, r),
    ensures
        rows_fixed(m) == m,
{
    assert forall|p: int| 0 <= p < 196 implies rows_fixed(m)[p] == m[p] by {
        if 1 <= p < 136 {
            let r = (p - 1) / 15;
            assert(corrected_15_11(row_of(m, r)) == row_of(m, r));
        }
    }
    assert(rows_fixed(m) =~= m);
}

/// Flipping sent bit `q` flips one matrix position.
proof fn lemma_flip_deinterleaved(w: Seq<u8>, q: int)
    requires
        w.len() == 196,
        0 <= q < 196,
    ensures
        deinterleaved(flip(w, q)) == flip(deinterleaved(w), q * 13 % 196),
{
    let p = q * 13 % 196;
    lemma_sent_as(q);
    let a = deinterleaved(flip(w, q));
    let b = flip(deinterleaved(w), p);
    assert forall|k: int| 0 <= k < 196 implies a[k] == b[k] by {
        lemma_sent_as(k);
        lemma_sent_as(p);
    }
    assert(a =~= b);
}

/// Law: data have one codeword.
pub proof fn law_bptc_unique(data: Seq<u8>, w: Seq<u8>, v: Seq<u8>)
    requires
        is_bptc_of(data, w),
        is_bptc_of(data, v),
    ensures
        w == v,
{
    let (m, n) = (deinterleaved(w), deinterleaved(v));
    assert forall|q: int| 0 <= q < 196 implies w[q] == v[q] by {
        lemma_sent_as(q);
        let p = q * 13 % 196;
        assert(m[p] == w[q] && n[p] == v[q]);
        if p > 0 {
            let (r, c) = ((p - 1) / 15, (p - 1) % 15);
            assert(cell(m, r, c) == column_word(data, c)[r]);
            assert(cell(n, r, c) == column_word(data, c)[r]);
        }
    }
    assert(w =~= v);
}

/// The lines of a matrix of `data` are left alone.
proof fn lemma_clean_lines(data: Seq<u8>, m: Seq<u8>)
    requires
        data.len() == 96,
        all_bits(data),
        is_matrix_of(data, m),
    ensures
        forall|r: int|
            0 <= r < 9 ==> is_codeword_15_11(#[trigger] row_of(m, r)) && corrected_15_11(row_of(m, r))
                == row_of(m, r) && syndrome_15_11(row_of(m, r)) == 0,
        forall|c: int|
            0 <= c < 15 ==> is_codeword_13_9(#[trigger] col_of(m, c)) && corrected_13_9(col_of(m, c))
                == column_word(data, c) && syndrome_13_9(col_of(m, c)) == 0 && correctable_13_9(
                col_of(m, c),
            ) && col_of(m, c) == column_word(data, c),
{
    lemma_words(data);
    lemma_matrix_lines(data, m);
    assert forall|r: int| 0 <= r < 9 implies is_codeword_15_11(#[trigger] row_of(m, r))
        && corrected_15_11(row_of(m, r)) == row_of(m, r) && syndrome_15_11(row_of(m, r)) == 0 by {
        assert(is_codeword_15_11(data_row_word(data, r)));
        law_clean_15_11(row_of(m, r));
    }
    assert forall|c: int| 0 <= c < 15 implies is_codeword_13_9(#[trigger] col_of(m, c))
        && corrected_13_9(col_of(m, c)) == column_word(data, c) && syndrome_13_9(col_of(m, c)) == 0
        && correctable_13_9(col_of(m, c)) && col_of(m, c) == column_word(data, c) by {
        assert(is_codeword_13_9(column_word(data, c)));
        law_clean_13_9(col_of(m, c));
    }
}

/// Law: a codeword decodes to its data, with nothing flipped.
pub proof fn law_bptc_clean(data: Seq<u8>, w: Seq<u8>)
    requires
        data.len() == 96,
        all_bits(data),
        is_bptc_of(data, w),
    ensures
        decodable(w),
        decoded(w) == data,
        flips(w) == 0,
{
    let m = deinterleaved(w);
    lemma_clean_lines(data, m);
    lemma_rows_kept(m);
    lemma_one_row_error(m, 9, 9);
    lemma_one_column_error(m, 15, 15);
    lemma_clean_columns(data, w);
}

/// The rows of a matrix with position `1 + 15 br + bc` flipped.
proof fn lemma_flip_rows(m: Seq<u8>, n: Seq<u8>, br: int, bc: int)
    requires
        m.len() == 196,
        0 <= br < 13,
        0 <= bc < 15,
        n == flip(m, 1 + 15 * br + bc),
    ensures
        forall|r: int|
            0 <= r < 13 ==> #[trigger] row_of(n, r) == if r == br {
                flip(row_of(m, r), bc)
            } else {
                row_of(m, r)
            },
        forall|c: int|
            0 <= c < 15 ==> #[trigger] col_of(n, c) == if c == bc {
                flip(col_of(m, c), br)
            } else {
                col_of(m, c)
            },
{
    assert forall|r: int| 0 <= r < 13 implies #[trigger] row_of(n, r) == if r == br {
        flip(row_of(m, r), bc)
    } else {
        row_of(m, r)
    } by {
        assert(row_of(n, r) =~= if r == br {
            flip(row_of(m, r), bc)
        } else {
            row_of(m, r)
        });
    }
    assert forall|c: int| 0 <= c < 15 implies #[trigger] col_of(n, c) == if c == bc {
        flip(col_of(m, c), br)
    } else {
        col_of(m, c)
    } by {
        assert(col_of(n, c) =~= if c == bc {
            flip(col_of(m, c), br)
        } else {
            col_of(m, c)
        });
    }
}

/// A flip in rows 0 to 8 is mended by the row pass.
proof fn lemma_flip_in_rows(data: Seq<u8>, m: Seq<u8>, v: Seq<u8>, br: int, bc: int)
    requires
        data.len() == 96,
        all_bits(data),
        is_matrix_of(data, m),
        0 <= br < 9,
        0 <= bc < 15,
        deinterleaved(v) == flip(m, 1 + 15 * br + bc),
    ensures
        decodable(v),
        decoded(v) == data,
        flips(v) == 1,
{
    let n = deinterleaved(v);
    lemma_clean_lines(data, m);
    lemma_flip_rows(m, n, br, bc);
    assert forall|r: int| 0 <= r < 9 implies corrected_15_11(#[trigger] row_of(n, r)) == row_of(m, r)
        && (syndrome_15_11(row_of(n, r)) == 0 <==> r != br) by {
        assert(is_codeword_15_11(row_of(m, r)));
        if r == br {
            law_single_error_15_11(row_of(m, r), bc);
        }
    }
    lemma_one_row_error(n, 9, br);
    let f = rows_fixed(n);
    assert forall|k: int| 0 <= k < 196 implies f[k] == m[k] by {
        if 1 <= k < 136 {
            let r = (k - 1) / 15;
            assert(corrected_15_11(row_of(n, r)) == row_of(m, r));
        }
    }
    assert(f =~= m);
    lemma_one_column_error(f, 15, 15);
    lemma_clean_columns(data, v);
}

/// A flip in the parity rows is mended by the column pass.
proof fn lemma_flip_in_parity(data: Seq<u8>, m: Seq<u8>, v: Seq<u8>, br: int, bc: int)
    requires
        data.len() == 96,
        all_bits(data),
        is_matrix_of(data, m),
        9 <= br < 13,
        0 <= bc < 15,
        deinterleaved(v) == flip(m, 1 + 15 * br + bc),
    ensures
        decodable(v),
        decoded(v) == data,
        flips(v) == 1,
{
    let n = deinterleaved(v);
    lemma_clean_lines(data, m);
    lemma_flip_rows(m, n, br, bc);
    assert forall|r: int| 0 <= r < 9 implies corrected_15_11(#[trigger] row_of(n, r)) == row_of(n, r)
        && syndrome_15_11(row_of(n, r)) == 0 by {
        assert(row_of(n, r) == row_of(m, r));
    }
    lemma_rows_kept(n);
    lemma_one_row_error(n, 9, 9);
    assert forall|c: int| 0 <= c < 15 implies correctable_13_9(#[trigger] col_of(n, c))
        && corrected_13_9(col_of(n, c)) == column_word(data, c) && (syndrome_13_9(col_of(n, c)) == 0
        <==> c != bc) by {
        assert(is_codeword_13_9(col_of(m, c)));
        if c == bc {
            law_single_error_13_9(col_of(m, c), br);
        }
    }
    lemma_one_column_error(n, 15, bc);
    lemma_clean_columns(data, v);
}

/// The reserved bit takes no part in decoding.
proof fn lemma_flip_reserved(data: Seq<u8>, m: Seq<u8>, v: Seq<u8>)
    requires
        data.len() == 96,
        all_bits(data),
        is_matrix_of(data, m),
        deinterleaved(v) == flip(m, 0),
    ensures
        decodable(v),
        decoded(v) == data,
        flips(v) == 0,
{
    let n = deinterleaved(v);
    lemma_clean_lines(data, m);
    assert forall|r: int| 0 <= r < 9 implies corrected_15_11(#[trigger] row_of(n, r)) == row_of(n, r)
        && syndrome_15_11(row_of(n, r)) == 0 by {
        assert(row_of(n, r) =~= row_of(m, r));
    }
    lemma_rows_kept(n);
    lemma_one_row_error(n, 9, 9);
    assert forall|c: int| 0 <= c < 15 implies correctable_13_9(#[trigger] col_of(n, c))
        && corrected_13_9(col_of(n, c)) == column_word(data, c) && syndrome_13_9(col_of(n, c))
        == 0 by {
        assert(col_of(n, c) =~= col_of(m, c));
    }
    lemma_one_column_error(n, 15, 15);
    lemma_clean_columns(data, v);
}

/// Law: a single flipped bit, wherever it is, is recovered.  The reserved bit
/// is outside the code; any other flip is counted once.
pub proof fn law_bptc_single_flip(data: Seq<u8>, w: Seq<u8>, q: int)
    requires
        data.len() == 96,
        all_bits(data),
        is_bptc_of(data, w),
        0 <= q < 196,
    ensures
        decodable(flip(w, q)),
        decoded(flip(w, q)) == data,
        flips(flip(w, q)) == if q == 0 {
            0int
        } else {
            1
        },
{
    let m = deinterleaved(w);
    let v = flip(w, q);
    let p = q * 13 % 196;
    lemma_flip_deinterleaved(w, q);
    lemma_sent_as(q);
    assert(sent_as(0) == 0);
    if p == 0 {
        lemma_flip_reserved(data, m, v);
    } else {
        assert(q != 0);
        let br = (p - 1) / 15;
        let bc = (p - 1) % 15;
        assert(p == 1 + 15 * br + bc);
        if br < 9 {
            lemma_flip_in_rows(data, m, v, br, bc);
        } else {
            lemma_flip_in_parity(data, m, v, br, bc);
        }
    }
}

// ---------------------------------------------------------------------------
// Bursts
// ---------------------------------------------------------------------------

/// The byte of a slot type: color code, then data type.
pub open spec fn slot_type_byte(data_type: u8, color_code: u8) -> u8 {
    (0x10 * (color_code % 0x10) + data_type % 0x10) as u8
}

/// The 20 bits of the slot type field.
pub fn encode_slot_type(data_type: u8, color_code: u8) -> (bits: [u8; 20])
    ensures
        bits@ == golay_word(slot_type_byte(data_type, color_code)),
{
    let info: u8 = 0x10 * (color_code % 0x10) + data_type % 0x10;
    let parity: u16 = golay_20_8_parity(info);
    let lo: u8 = (parity % 0x100) as u8;
    let hi: u8 = (parity / 0x100) as u8;
    let mut bits: [u8; 20] = [0u8; 20];
    let mut i: usize = 0;
    while i < 20
        invariant
            i <= 20,
            parity == golay_parity(info),
            lo == parity % 0x100,
            hi == parity / 0x100,
            forall|k: int| 0 <= k < i ==> bits@[k] == golay_word(info)[k],
        decreases 20 - i,
    {
        bits[i] = if i < 8 {
            get_bit(info, i)
        } else if i < 16 {
            get_bit(lo, i - 8)
        } else {
            get_bit(hi, i - 16)
        };
        i += 1;
    }
    assert(bits@ =~= golay_word(info));
    bits
}

/// The 264 bits of a data burst: half the codeword, half the slot type, the
/// sync pattern, the other half of the slot type, the other half of the
/// codeword.
pub open spec fn burst_bits(code: Seq<u8>, slot_type: Seq<u8>, sync: Seq<u8>) -> Seq<u8> {
    code.subrange(0, 98) + slot_type.subrange(0, 10) + bits_of(sync) + slot_type.subrange(10, 20)
        + code.subrange(98, 196)
}

/// 1 where an element is not zero.
pub open spec fn as_bits(s: Seq<u8>) -> Seq<u8> {
    Seq::new(
        s.len(),
        |i: int|
            if s[i] != 0 {
                1
            } else {
                0
            },
    )
}

/// Builds the burst of a voice header (`data_type` 1) or terminator (2).
pub fn build_data_burst(
    lc_bits: &[u8; DATA_BITS],
    data_type: u8,
    color_code: u8,
    sync: &[u8; 6],
) -> (r: [u8; DMR_DATA_SIZE])
    ensures
        exists|code: Seq<u8>| #[trigger]
            is_bptc_of(lc_bits@, code) && r@ == bytes_of(
                as_bits(
                    burst_bits(code, golay_word(slot_type_byte(data_type, color_code)), sync@),
                ),
            ),
{
    let code = bptc_encode(lc_bits);
    let slot_type = encode_slot_type(data_type, color_code);
    let ghost all = burst_bits(code@, slot_type@, sync@);
    let mut bits: [u8; 264] = [0u8; 264];
    let mut k: usize = 0;
    while k < 264
        invariant
            k <= 264,
            code@.len() == 196,
            slot_type@.len() == 20,
            all == burst_bits(code@, slot_type@, sync@),
            forall|j: int| 0 <= j < k ==> bits@[j] == as_bits(all)[j],
        decreases 264 - k,
    {
        let b: u8 = if k < 98 {
            code[k]
        } else if k < 108 {
            slot_type[k - 98]
        } else if k < 156 {
            get_bit(sync[(k - 108) / 8], (k - 108) % 8)
        } else if k < 166 {
            slot_type[k - 146]
        } else {
            code[k - 68]
        };
        assert(all[k as int] == b);
        bits[k] = if b != 0 {
            1
        } else {
            0
        };
        k += 1;
    }
    assert(bits@ =~= as_bits(all));
    let mut data: [u8; DMR_DATA_SIZE] = [0u8; DMR_DATA_SIZE];
    let mut i: usize = 0;
    while i < DMR_DATA_SIZE
        invariant
            i <= 33,
            forall|j: int| 0 <= j < i ==> data@[j] == bytes_of(bits@)[j],
        decreases 33 - i,
    {
        data[i] = get_byte(&bits, 8 * i);
        i += 1;
    }
    assert(data@ =~= bytes_of(bits@));
    data
}

/// The parity mask that a data type selects.
pub open spec fn mask_of(data_type: u8) -> Seq<u8> {
    if data_type == 2 {
        LC_TERMINATOR_MASK@
    } else {
        LC_HEADER_MASK@
    }
}

/// `body` is the nine bytes of a voice LC: opcode (0 for group, 3 for unit
/// calls), two zero bytes, destination, source.
pub open spec fn is_lc_body(body: Seq<u8>, group_call: bool, dst_id: u32, src_id: u32) -> bool {
    &&& body.len() == 9
    &&& body[0] == if group_call {
        0u8
    } else {
        3u8
    }
    &&& body[1] == 0
    &&& body[2] == 0
    &&& be24(body[3], body[4], body[5]) == dst_id
    &&& be24(body[6], body[7], body[8]) == src_id
}

/// `bytes` is a voice LC with its masked parity.
pub open spec fn is_voice_lc(
    bytes: Seq<u8>,
    group_call: bool,
    dst_id: u32,
    src_id: u32,
    data_type: u8,
) -> bool {
    &&& bytes.len() == 12
    &&& is_lc_body(bytes.subrange(0, 9), group_call, dst_id, src_id)
    &&& is_codeword(unmasked(bytes.subrange(0, 9), bytes.subrange(9, 12), mask_of(data_type)))
}

/// The nine bytes of a voice LC.
fn lc_body(group_call: bool, dst_id: u32, src_id: u32) -> (body: [u8; 9])
    requires
        dst_id <= MAX_24BIT,
        src_id <= MAX_24BIT,
    ensures
        is_lc_body(body@, group_call, dst_id, src_id),
{
    let opcode: u8 = if group_call {
        0
    } else {
        3
    };
    let dst = id_to_24_be(dst_id);
    let src = id_to_24_be(src_id);
    [opcode, 0, 0, dst[0], dst[1], dst[2], src[0], src[1], src[2]]
}

/// The bits of twelve bytes.
fn lc_bits_of(bytes: &[u8; 12]) -> (bits: [u8; DATA_BITS])
    ensures
        bits@ == bits_of(bytes@),
{
    let mut bits: [u8; DATA_BITS] = [0u8; DATA_BITS];
    let mut k: usize = 0;
    while k < DATA_BITS
        invariant
            k <= 96,
            forall|j: int| 0 <= j < k ==> bits@[j] == bits_of(bytes@)[j],
        decreases 96 - k,
    {
        bits[k] = get_bit(bytes[k / 8], k % 8);
        k += 1;
    }
    assert(bits@ =~= bits_of(bytes@));
    bits
}

/// The bytes that 96 bits spell.
fn lc_bytes_of(bits: &[u8; DATA_BITS]) -> (bytes: [u8; 12])
    ensures
        bytes@ == bytes_of(bits@),
{
    let mut bytes: [u8; 12] = [0u8; 12];
    let mut i: usize = 0;
    while i < 12
        invariant
            i <= 12,
            forall|j: int| 0 <= j < i ==> bytes@[j] == bytes_of(bits@)[j],
        decreases 12 - i,
    {
        bytes[i] = get_byte(bits, 8 * i);
        i += 1;
    }
    assert(bytes@ =~= bytes_of(bits@));
    bytes
}

/// The 96 bits of a voice LC: body and RS(12,9) parity, masked for a
/// terminator when `data_type` is 2 and for a header otherwise.
pub fn build_voice_lc(
    group_call: bool,
    dst_id: u32,
    src_id: u32,
    data_type: u8,
) -> (bits: [u8; DATA_BITS])
    requires
        dst_id <= MAX_24BIT,
        src_id <= MAX_24BIT,
    ensures
        all_bits(bits@),
        is_voice_lc(bytes_of(bits@), group_call, dst_id, src_id, data_type),
{
    let body = lc_body(group_call, dst_id, src_id);
    let fec = if data_type == 2 {
        rs_12_9_fec(&body, &LC_TERMINATOR_MASK)
    } else {
        rs_12_9_fec(&body, &LC_HEADER_MASK)
    };
    let payload: [u8; 12] = [
        body[0],
        body[1],
        body[2],
        body[3],
        body[4],
        body[5],
        body[6],
        body[7],
        body[8],
        fec[0],
        fec[1],
        fec[2],
    ];
    assert(is_voice_lc(payload@, group_call, dst_id, src_id, data_type)) by {
        assert(payload@.subrange(0, 9) =~= body@);
        assert(payload@.subrange(9, 12) =~= fec@);
    }
    let bits = lc_bits_of(&payload);
    assert(bytes_of(bits@) == payload@ && all_bits(bits@)) by {
        law_bytes_of_bits_of(payload@);
    }
    bits
}

/// The 72 bits of a voice LC without parity.
pub fn build_voice_lc_body(group_call: bool, dst_id: u32, src_id: u32) -> (bits: [u8; 72])
    requires
        dst_id <= MAX_24BIT,
        src_id <= MAX_24BIT,
    ensures
        all_bits(bits@),
        is_lc_body(bytes_of(bits@), group_call, dst_id, src_id),
{
    let body = lc_body(group_call, dst_id, src_id);
    let mut bits: [u8; 72] = [0u8; 72];
    let mut k: usize = 0;
    while k < 72
        invariant
            k <= 72,
            forall|j: int| 0 <= j < k ==> bits@[j] == bits_of(body@)[j],
        decreases 72 - k,
    {
        bits[k] = get_bit(body[k / 8], k % 8);
        k += 1;
    }
    proof {
        assert(bits@ =~= bits_of(body@));
        law_bytes_of_bits_of(body@);
    }
    bits
}

/// The codeword that a burst carries.
pub open spec fn burst_code(burst: Seq<u8>) -> Seq<u8> {
    bits_of(burst).subrange(0, 98) + bits_of(burst).subrange(166, 264)
}

/// The 196 bits of the codeword that a burst carries.
pub fn extract_burst_interleaved(burst: &[u8; DMR_DATA_SIZE]) -> (r: [u8; BPTC_BITS])
    ensures
        r@ == burst_code(burst@),
        all_bits(r@),
{
    let mut out: [u8; BPTC_BITS] = [0u8; BPTC_BITS];
    let mut q: usize = 0;
    while q < BPTC_BITS
        invariant
            q <= 196,
            forall|j: int| 0 <= j < q ==> out@[j] == burst_code(burst@)[j],
            forall|j: int| 0 <= j < q ==> out@[j] <= 1,
        decreases 196 - q,
    {
        let k: usize = if q < 98 {
            q
        } else {
            q + 68
        };
        out[q] = get_bit(burst[k / 8], k % 8);
        q += 1;
    }
    assert(out@ =~= burst_code(burst@));
    out
}

/// What a voice header or terminator burst says.
#[derive(Debug, Clone, Copy)]
pub struct DecodedVoiceLc {
    /// Source, after correction.
    pub src_id: u32,
    /// Destination, after correction.
    pub dst_id: u32,
    /// RS(12,9) syndromes before correction; all zero for a valid LC.
    pub rs_syndromes: [u8; 3],
    /// The LC was valid or has been corrected.
    pub rs_corrected: bool,
    /// Bits flipped by the product code.
    pub bptc_corrected_bits: u8,
}

/// The twelve symbols that LC bytes stand for, parity unmasked.
pub open spec fn lc_symbols(lc: Seq<u8>, data_type: u8) -> Seq<u8> {
    unmasked(lc.subrange(0, 9), lc.subrange(9, 12), mask_of(data_type))
}

/// `v` is what the RS(12,9) correction makes of `w`.
pub open spec fn is_rs_outcome(w: Seq<u8>, corrected: bool, v: Seq<u8>) -> bool {
    if corrected {
        is_codeword(v) && one_symbol_apart(w, v)
    } else {
        v == w && forall|u: Seq<u8>| #[trigger] one_symbol_apart(w, u) ==> !is_codeword(u)
    }
}

/// `lc` says what the LC bytes `bytes` carry.
pub open spec fn reads_lc(lc: DecodedVoiceLc, bytes: Seq<u8>, data_type: u8) -> bool {
    let w = lc_symbols(bytes, data_type);
    &&& lc.rs_syndromes@ == syndromes(w)
    &&& exists|v: Seq<u8>| #[trigger]
        is_rs_outcome(w, lc.rs_corrected, v) && be24(v[3], v[4], v[5]) == lc.dst_id && be24(
            v[6],
            v[7],
            v[8],
        ) == lc.src_id
}

/// Decodes the burst of a voice header or terminator.  `None` where the
/// product code cannot be corrected.
pub fn decode_voice_lc_burst(burst: &[u8; DMR_DATA_SIZE], data_type: u8) -> (r: Option<
    DecodedVoiceLc,
>)
    ensures
        r is Some <==> decodable(burst_code(burst@)),
        r matches Some(lc) ==> {
            &&& reads_lc(lc, bytes_of(decoded(burst_code(burst@))), data_type)
            &&& lc.bptc_corrected_bits == flips(burst_code(burst@))
        },
{
    let interleaved = extract_burst_interleaved(burst);
    let (bits, bptc_corrected_bits) = match bptc_decode_correct(&interleaved) {
        Some(out) => out,
        None => return None,
    };
    let lc = lc_bytes_of(&bits);
    let mask = if data_type == 2 {
        LC_TERMINATOR_MASK
    } else {
        LC_HEADER_MASK
    };
    let mut codeword: [u8; 12] = [
        lc[0],
        lc[1],
        lc[2],
        lc[3],
        lc[4],
        lc[5],
        lc[6],
        lc[7],
        lc[8],
        lc[9] ^ mask[0],
        lc[10] ^ mask[1],
        lc[11] ^ mask[2],
    ];
    assert(codeword@ =~= lc_symbols(lc@, data_type));
    let rs_syndromes = rs_12_9_syndromes(&codeword);
    let rs_corrected = rs_12_9_correct(&mut codeword);
    let r = DecodedVoiceLc {
        src_id: u24_from_be(codeword[6], codeword[7], codeword[8]),
        dst_id: u24_from_be(codeword[3], codeword[4], codeword[5]),
        rs_syndromes,
        rs_corrected,
        bptc_corrected_bits,
    };
    assert(is_rs_outcome(lc_symbols(lc@, data_type), r.rs_corrected, codeword@));
    Some(r)
}

// ---------------------------------------------------------------------------
// Laws of the bursts
// ---------------------------------------------------------------------------

proof fn lemma_code_is_bits(data: Seq<u8>, w: Seq<u8>)
    requires
        data.len() == 96,
        all_bits(data),
        is_bptc_of(data, w),
    ensures
        all_bits(w),
{
    reveal(is_codeword_13_9);
    lemma_words(data);
    let m = deinterleaved(w);
    lemma_matrix_lines(data, m);
    assert forall|q: int| 0 <= q < 196 implies w[q] <= 1 by {
        lemma_sent_as(q);
        let p = q * 13 % 196;
        assert(m[p] == w[q]);
        if p > 0 {
            let r = (p - 1) / 15;
            let c = (p - 1) % 15;
            assert(is_codeword_13_9(column_word(data, c)));
            assert(cell(m, r, c) == m[p]);
        }
    }
}

/// Law: a burst carries the codeword that it was built from.
pub proof fn law_burst_carries_code(
    data: Seq<u8>,
    code: Seq<u8>,
    slot_type: Seq<u8>,
    sync: Seq<u8>,
    burst: Seq<u8>,
)
    requires
        data.len() == 96,
        all_bits(data),
        is_bptc_of(data, code),
        slot_type.len() == 20,
        sync.len() == 6,
        burst == bytes_of(as_bits(burst_bits(code, slot_type, sync))),
    ensures
        burst_code(burst) == code,
{
    let all = burst_bits(code, slot_type, sync);
    law_bits_of_bytes_of(as_bits(all));
    lemma_code_is_bits(data, code);
    assert forall|q: int| 0 <= q < 196 implies burst_code(burst)[q] == code[q] by {
        if q < 98 {
            assert(all[q] == code[q]);
        } else {
            assert(all[q + 68] == code[q]);
        }
    }
    assert(burst_code(burst) =~= code);
}

/// Law: decoding a burst built for a voice LC gives its addresses, a clean
/// checksum and no flipped bits.
pub proof fn law_voice_lc_round_trip(
    bits: Seq<u8>,
    group_call: bool,
    dst_id: u32,
    src_id: u32,
    data_type: u8,
    code: Seq<u8>,
    slot_type: Seq<u8>,
    sync: Seq<u8>,
    burst: Seq<u8>,
    lc: DecodedVoiceLc,
)
    requires
        bits.len() == 96,
        all_bits(bits),
        is_voice_lc(bytes_of(bits), group_call, dst_id, src_id, data_type),
        is_bptc_of(bits, code),
        slot_type.len() == 20,
        sync.len() == 6,
        burst == bytes_of(as_bits(burst_bits(code, slot_type, sync))),
        reads_lc(lc, bytes_of(decoded(burst_code(burst))), data_type),
    ensures
        decodable(burst_code(burst)),
        flips(burst_code(burst)) == 0,
        lc.src_id == src_id,
        lc.dst_id == dst_id,
        lc.rs_corrected,
        lc.rs_syndromes@ == seq![0u8, 0u8, 0u8],
{
    law_burst_carries_code(bits, code, slot_type, sync, burst);
    law_bptc_clean(bits, code);
    let bytes = bytes_of(bits);
    let w = lc_symbols(bytes, data_type);
    let v = choose|v: Seq<u8>| #[trigger]
        is_rs_outcome(w, lc.rs_corrected, v) && be24(v[3], v[4], v[5]) == lc.dst_id && be24(
            v[6],
            v[7],
            v[8],
        ) == lc.src_id;
    assert(w.update(0, w[0]) =~= w);
    assert(one_symbol_apart(w, w));
    assert(lc.rs_corrected);
    law_correction_unique(w, w, v);
    assert(v == w);
    assert(syndromes(w) =~= seq![0u8, 0u8, 0u8]);
}

/// Law: one wrong byte in a voice LC, parity included, is put right: decoding
/// gives the addresses of the LC before the byte was changed.
pub proof fn law_voice_lc_wrong_byte(
    good: Seq<u8>,
    group_call: bool,
    dst_id: u32,
    src_id: u32,
    data_type: u8,
    k: int,
    wrong: u8,
    lc: DecodedVoiceLc,
)
    requires
        is_voice_lc(good, group_call, dst_id, src_id, data_type),
        0 <= k < 12,
        reads_lc(lc, good.update(k, wrong), data_type),
    ensures
        lc.src_id == src_id,
        lc.dst_id == dst_id,
        lc.rs_corrected,
{
    let bad = good.update(k, wrong);
    let c = lc_symbols(good, data_type);
    let w = lc_symbols(bad, data_type);
    assert(w =~= c.update(k, w[k]));
    let v = choose|v: Seq<u8>| #[trigger]
        is_rs_outcome(w, lc.rs_corrected, v) && be24(v[3], v[4], v[5]) == lc.dst_id && be24(
            v[6],
            v[7],
            v[8],
        ) == lc.src_id;
    assert(w.update(k, c[k]) =~= c);
    assert(one_symbol_apart(w, c));
    assert(lc.rs_corrected);
    law_correction_unique(w, c, v);
    assert(v == c);
}

/// Law: where the data bits of a codeword are sent, with the reserved bit and the
/// three information bits that are not used zero: data bit `i` is in row
/// `(i + 3) / 11` and column `(i + 3) mod 11` of the matrix, and what is in row `r`
/// and column `c` is bit `181 (1 + 15 r + c) mod 196`.
pub proof fn law_bptc_places(data: Seq<u8>, w: Seq<u8>)
    requires
        data.len() == 96,
        is_bptc_of(data, w),
    ensures
        w.len() == 196,
        w[0] == 0,
        w[181] == 0 && w[166] == 0 && w[151] == 0,
        forall|i: int|
            0 <= i < 96 ==> #[trigger] data[i] == w[(1 + 15 * ((i + 3) / 11) + (i + 3) % 11) * 181 % 196],
{
    let m = deinterleaved(w);
    assert(sent_as(0) == 0 && m[0] == w[0]);
    assert(cell(m, 0, 0) == column_word(data, 0)[0]);
    assert(cell(m, 0, 1) == column_word(data, 1)[0]);
    assert(cell(m, 0, 2) == column_word(data, 2)[0]);
    assert(sent_as(1) == 181 && sent_as(2) == 166 && sent_as(3) == 151);
    assert(info_row(data, 0)[0] == 0 && info_row(data, 0)[1] == 0 && info_row(data, 0)[2] == 0);
    assert(column_head(data, 0)[0] == data_row_word(data, 0)[0]);
    assert(column_head(data, 1)[0] == data_row_word(data, 0)[1]);
    assert(column_head(data, 2)[0] == data_row_word(data, 0)[2]);
    assert forall|i: int| 0 <= i < 96 implies #[trigger] data[i] == w[(1 + 15 * ((i + 3) / 11) + (i
        + 3) % 11) * 181 % 196] by {
        let (r, c) = ((i + 3) / 11, (i + 3) % 11);
        assert(i + 3 == 11 * r + c);
        assert(cell(m, r, c) == column_word(data, c)[r]);
        assert(column_word(data, c)[r] == column_head(data, c)[r]);
        assert(column_head(data, c)[r] == data_row_word(data, r)[c]);
        assert(data_row_word(data, r)[c] == info_row(data, r)[c]);
        assert(info_row(data, r)[c] == data[i]);
        assert(m[1 + 15 * r + c] == w[sent_as(1 + 15 * r + c)]);
    }
}

/// Law: where the parity of a codeword is: the last four columns of rows 0 to 8 are
/// the Hamming(15,11) parity of their row, and the last four rows are the
/// Hamming(13,9) parity of their column.
pub proof fn law_bptc_parity(data: Seq<u8>, w: Seq<u8>, r: int, c: int, row: Seq<u8>, col: Seq<u8>)
    requires
        data.len() == 96,
        all_bits(data),
        is_bptc_of(data, w),
        0 <= r < 9,
        0 <= c < 15,
        row.len() == 15,
        forall|k: int| 0 <= k < 15 ==> #[trigger] row[k] == w[(1 + 15 * r + k) * 181 % 196],
        col.len() == 13,
        forall|k: int| 0 <= k < 13 ==> #[trigger] col[k] == w[(1 + 15 * k + c) * 181 % 196],
    ensures
        row[11] == row[0] ^ row[1] ^ row[2] ^ row[3] ^ row[5] ^ row[7] ^ row[8],
        row[12] == row[1] ^ row[2] ^ row[3] ^ row[4] ^ row[6] ^ row[8] ^ row[9],
        row[13] == row[2] ^ row[3] ^ row[4] ^ row[5] ^ row[7] ^ row[9] ^ row[10],
        row[14] == row[0] ^ row[1] ^ row[2] ^ row[4] ^ row[6] ^ row[7] ^ row[10],
        col[9] == col[0] ^ col[1] ^ col[3] ^ col[5] ^ col[6],
        col[10] == col[0] ^ col[1] ^ col[2] ^ col[4] ^ col[6] ^ col[7],
        col[11] == col[0] ^ col[1] ^ col[2] ^ col[3] ^ col[5] ^ col[7] ^ col[8],
        col[12] == col[0] ^ col[2] ^ col[4] ^ col[5] ^ col[8],
{
    let m = deinterleaved(w);
    lemma_clean_lines(data, m);
    assert(row_of(m, r) =~= row) by {
        assert forall|k: int| 0 <= k < 15 implies row_of(m, r)[k] == row[k] by {
            assert(cell(m, r, k) == w[sent_as(1 + 15 * r + k)]);
        }
    }
    assert(col_of(m, c) =~= col) by {
        assert forall|k: int| 0 <= k < 13 implies col_of(m, c)[k] == col[k] by {
            assert(cell(m, k, c) == w[sent_as(1 + 15 * k + c)]);
        }
    }
    assert(is_codeword_15_11(row_of(m, r)));
    assert(is_codeword_13_9(col_of(m, c)));
    reveal(is_codeword_15_11);
    reveal(is_codeword_13_9);
    let (p, q) = (row.subrange(11, 15), col.subrange(9, 13));
    assert(p[0] == row[11] && p[1] == row[12] && p[2] == row[13] && p[3] == row[14]);
    assert(q[0] == col[9] && q[1] == col[10] && q[2] == col[11] && q[3] == col[12]);
}

/// Law: where the parts of a header or terminator burst are: the codeword in its
/// first and last 98 bits, the slot type in ten bits on either side of the 48 bits of
/// sync in the middle; the slot type starts with the color code and the kind of
/// data.
pub proof fn law_data_burst_layout(
    data: Seq<u8>,
    code: Seq<u8>,
    data_type: u8,
    color_code: u8,
    sync: Seq<u8>,
    burst: Seq<u8>,
)
    requires
        data.len() == 96,
        all_bits(data),
        is_bptc_of(data, code),
        sync.len() == 6,
        burst == bytes_of(
            as_bits(burst_bits(code, golay_word(slot_type_byte(data_type, color_code)), sync)),
        ),
    ensures
        bits_of(burst).len() == 264,
        forall|q: int| 0 <= q < 98 ==> #[trigger] bits_of(burst)[q] == code[q],
        forall|q: int| 166 <= q < 264 ==> #[trigger] bits_of(burst)[q] == code[q - 68],
        forall|q: int| 108 <= q < 156 ==> #[trigger] bits_of(burst)[q] == bits_of(sync)[q - 108],
        forall|q: int|
            98 <= q < 108 ==> #[trigger] bits_of(burst)[q] == golay_word(
                (16 * (color_code % 16) + data_type % 16) as u8,
            )[q - 98],
        forall|q: int|
            156 <= q < 166 ==> #[trigger] bits_of(burst)[q] == golay_word(
                (16 * (color_code % 16) + data_type % 16) as u8,
            )[q - 146],
{
    let info = slot_type_byte(data_type, color_code);
    lemma_code_is_bits(data, code);
    lemma_golay_word_bits(info);
    lemma_data_burst_bits(code, golay_word(info), sync, burst);
    assert(info == 16 * (color_code % 16) + data_type % 16);
}

#[verifier::spinoff_prover]
proof fn lemma_data_burst_bits(code: Seq<u8>, slot_type: Seq<u8>, sync: Seq<u8>, burst: Seq<u8>)
    requires
        code.len() == 196,
        all_bits(code),
        slot_type.len() == 20,
        all_bits(slot_type),
        sync.len() == 6,
        burst == bytes_of(as_bits(burst_bits(code, slot_type, sync))),
    ensures
        bits_of(burst).len() == 264,
        forall|q: int| 0 <= q < 98 ==> #[trigger] bits_of(burst)[q] == code[q],
        forall|q: int| 166 <= q < 264 ==> #[trigger] bits_of(burst)[q] == code[q - 68],
        forall|q: int| 108 <= q < 156 ==> #[trigger] bits_of(burst)[q] == bits_of(sync)[q - 108],
        forall|q: int| 98 <= q < 108 ==> #[trigger] bits_of(burst)[q] == slot_type[q - 98],
        forall|q: int| 156 <= q < 166 ==> #[trigger] bits_of(burst)[q] == slot_type[q - 146],
{
    let all = burst_bits(code, slot_type, sync);
    law_bytes_of_bits_of(sync);
    assert(all.len() == 264);
    law_bits_of_bytes_of(as_bits(all));
    lemma_burst_parts(code, slot_type, bits_of(sync), all, bits_of(burst));
}

proof fn lemma_burst_parts(
    code: Seq<u8>,
    slot_type: Seq<u8>,
    sync: Seq<u8>,
    all: Seq<u8>,
    b: Seq<u8>,
)
    requires
        code.len() == 196,
        all_bits(code),
        slot_type.len() == 20,
        all_bits(slot_type),
        sync.len() == 48,
        all_bits(sync),
        all == code.subrange(0, 98) + slot_type.subrange(0, 10) + sync + slot_type.subrange(10, 20)
            + code.subrange(98, 196),
        b == as_bits(all),
    ensures
        forall|q: int| 0 <= q < 98 ==> #[trigger] b[q] == code[q],
        forall|q: int| 166 <= q < 264 ==> #[trigger] b[q] == code[q - 68],
        forall|q: int| 108 <= q < 156 ==> #[trigger] b[q] == sync[q - 108],
        forall|q: int| 98 <= q < 108 ==> #[trigger] b[q] == slot_type[q - 98],
        forall|q: int| 156 <= q < 166 ==> #[trigger] b[q] == slot_type[q - 146],
{
    assert forall|q: int| 0 <= q < 98 implies #[trigger] b[q] == code[q] by {
        assert(all[q] == code[q]);
    }
    assert forall|q: int| 166 <= q < 264 implies #[trigger] b[q] == code[q - 68] by {
        assert(all[q] == code[q - 68]);
    }
    assert forall|q: int| 108 <= q < 156 implies #[trigger] b[q] == sync[q - 108] by {
        assert(all[q] == sync[q - 108]);
    }
    assert forall|q: int| 98 <= q < 108 implies #[trigger] b[q] == slot_type[q - 98] by {
        assert(all[q] == slot_type[q - 98]);
    }
    assert forall|q: int| 156 <= q < 166 implies #[trigger] b[q] == slot_type[q - 146] by {
        assert(all[q] == slot_type[q - 146]);
    }
}

proof fn lemma_golay_word_bits(info: u8)
    ensures
        forall|i: int| 0 <= i < 20 ==> #[trigger] golay_word(info)[i] <= 1,
{
    assert forall|i: int| 0 <= i < 20 implies #[trigger] golay_word(info)[i] <= 1 by {
        let lo = (golay_parity(info) % 0x100) as u8;
        let hi = (golay_parity(info) / 0x100) as u8;
        if i < 8 {
            lemma_bit_range(info, i);
        } else if i < 16 {
            lemma_bit_range(lo, i - 8);
        } else {
            lemma_bit_range(hi, i - 16);
        }
    }
}

/// Law: the bytes of a voice LC: the opcode, 0 for group and 3 for private calls, two
/// zeros, the destination and the source in three bytes each, the most significant
/// first, and three bytes of parity over which 0x96 lies in a header and 0x99 in a
/// terminator.
pub proof fn law_voice_lc_bytes(
    bytes: Seq<u8>,
    group_call: bool,
    dst_id: u32,
    src_id: u32,
    data_type: u8,
)
    requires
        data_type == 1 || data_type == 2,
        is_voice_lc(bytes, group_call, dst_id, src_id, data_type),
    ensures
        bytes.len() == 12,
        bytes[0] == (if group_call {
            0u8
        } else {
            3u8
        }),
        bytes[1] == 0,
        bytes[2] == 0,
        0x1_0000 * bytes[3] + 0x100 * bytes[4] + bytes[5] == dst_id,
        0x1_0000 * bytes[6] + 0x100 * bytes[7] + bytes[8] == src_id,
        ({
            let m: u8 = if data_type == 1 {
                0x96
            } else {
                0x99
            };
            is_codeword(
                seq![
                    bytes[0],
                    bytes[1],
                    bytes[2],
                    bytes[3],
                    bytes[4],
                    bytes[5],
                    bytes[6],
                    bytes[7],
                    bytes[8],
                    bytes[9] ^ m,
                    bytes[10] ^ m,
                    bytes[11] ^ m,
                ],
            )
        }),
{
    let m: u8 = if data_type == 1 {
        0x96
    } else {
        0x99
    };
    let body = bytes.subrange(0, 9);
    let w = unmasked(body, bytes.subrange(9, 12), mask_of(data_type));
    assert(mask_of(data_type) =~= seq![m, m, m]);
    assert(w =~= seq![
        bytes[0],
        bytes[1],
        bytes[2],
        bytes[3],
        bytes[4],
        bytes[5],
        bytes[6],
        bytes[7],
        bytes[8],
        bytes[9] ^ m,
        bytes[10] ^ m,
        bytes[11] ^ m,
    ]);
}

/// Law: the nine bytes of an LC without parity are those of an LC with it.
pub proof fn law_lc_body_bytes(body: Seq<u8>, group_call: bool, dst_id: u32, src_id: u32)
    requires
        is_lc_body(body, group_call, dst_id, src_id),
    ensures
        body.len() == 9,
        body[0] == (if group_call {
            0u8
        } else {
            3u8
        }),
        body[1] == 0,
        body[2] == 0,
        0x1_0000 * body[3] + 0x100 * body[4] + body[5] == dst_id,
        0x1_0000 * body[6] + 0x100 * body[7] + body[8] == src_id,
{
}

} // verus!
