//! Channel coding of AMBE+2 voice frames: 49 codec bits in, 72 channel bits out.
//!
//! The 72 bits are the cells of four rows.  Row 0 (24 bits) is the Golay(24,12)
//! codeword of source bits 0 to 11.  Row 1 (23 bits) is the Golay(23,12)
//! codeword of source bits 12 to 23, whitened with a pseudo-random sequence
//! seeded by source bits 0 to 11.  Rows 2 (11 bits) and 3 (14 bits) are source
//! bits 24 to 34 and 35 to 48, unprotected.  Within a row, later source bits
//! stand in lower columns; the rows are interleaved on the air.
//!
//! Raw frames hold the source bits in the order in which the vocoder chip
//! gives them.

use vstd::arithmetic::div_mod::lemma_mod_multiples_vanish;
use vstd::arithmetic::power::{lemma_pow0, pow};
use vstd::prelude::*;

use crate::bits::{
    bits_of, bytes_of, get_bit, get_byte, law_bits_of_bytes_of, lemma_bit_range,
};
use crate::fec::{all_bits, lemma_xor_bits};

verus! {

/// Bytes of a raw frame.
pub const RAW_BYTES: usize = 7;

/// Bytes of a channel-coded frame.
pub const CODED_BYTES: usize = 9;

/// Bits of a raw frame.
pub const RAW_BITS: usize = 49;

/// Multiplier of the whitening sequence.
pub const PN_MULT: u32 = 173;

/// Increment of the whitening sequence.
pub const PN_INC: u32 = 13849;

/// Modulus of the whitening sequence.
pub const PN_MOD: u32 = 0x10000;

// ---------------------------------------------------------------------------
// Golay(23,12) and Golay(24,12)
// ---------------------------------------------------------------------------

/// The Golay(23,12) codeword of 12 data bits: the data in bits 22 to 11, the
/// parity below.  The code is linear: each data bit adds its own row.
pub open spec fn golay_23_word(d: u16) -> u32 {
    (if d & 0x001 != 0 { 0x000C75u32 } else { 0u32 })
        ^ (if d & 0x002 != 0 { 0x00149Fu32 } else { 0u32 })
        ^ (if d & 0x004 != 0 { 0x00254Bu32 } else { 0u32 })
        ^ (if d & 0x008 != 0 { 0x0046E3u32 } else { 0u32 })
        ^ (if d & 0x010 != 0 { 0x0081B3u32 } else { 0u32 })
        ^ (if d & 0x020 != 0 { 0x010366u32 } else { 0u32 })
        ^ (if d & 0x040 != 0 { 0x0206CCu32 } else { 0u32 })
        ^ (if d & 0x080 != 0 { 0x0401EDu32 } else { 0u32 })
        ^ (if d & 0x100 != 0 { 0x0803DAu32 } else { 0u32 })
        ^ (if d & 0x200 != 0 { 0x1007B4u32 } else { 0u32 })
        ^ (if d & 0x400 != 0 { 0x20031Du32 } else { 0u32 })
        ^ (if d & 0x800 != 0 { 0x40063Au32 } else { 0u32 })
}

/// The Golay(24,12) codeword: the Golay(23,12) codeword and an overall parity
/// bit below it.
pub open spec fn golay_24_word(d: u16) -> u32 {
    (if d & 0x001 != 0 { 0x0018EBu32 } else { 0u32 })
        ^ (if d & 0x002 != 0 { 0x00293Eu32 } else { 0u32 })
        ^ (if d & 0x004 != 0 { 0x004A97u32 } else { 0u32 })
        ^ (if d & 0x008 != 0 { 0x008DC6u32 } else { 0u32 })
        ^ (if d & 0x010 != 0 { 0x010367u32 } else { 0u32 })
        ^ (if d & 0x020 != 0 { 0x0206CDu32 } else { 0u32 })
        ^ (if d & 0x040 != 0 { 0x040D99u32 } else { 0u32 })
        ^ (if d & 0x080 != 0 { 0x0803DAu32 } else { 0u32 })
        ^ (if d & 0x100 != 0 { 0x1007B4u32 } else { 0u32 })
        ^ (if d & 0x200 != 0 { 0x200F68u32 } else { 0u32 })
        ^ (if d & 0x400 != 0 { 0x40063Bu32 } else { 0u32 })
        ^ (if d & 0x800 != 0 { 0x800C75u32 } else { 0u32 })
}

/// The product of the polynomial `q` and the generator polynomial
/// x^11 + x^10 + x^6 + x^5 + x^4 + x^2 + 1.
pub open spec fn times_generator(q: u16) -> u32 {
    (if q & 0x001 != 0 { 0xC75u32 << 0 } else { 0u32 })
        ^ (if q & 0x002 != 0 { 0xC75u32 << 1 } else { 0u32 })
        ^ (if q & 0x004 != 0 { 0xC75u32 << 2 } else { 0u32 })
        ^ (if q & 0x008 != 0 { 0xC75u32 << 3 } else { 0u32 })
        ^ (if q & 0x010 != 0 { 0xC75u32 << 4 } else { 0u32 })
        ^ (if q & 0x020 != 0 { 0xC75u32 << 5 } else { 0u32 })
        ^ (if q & 0x040 != 0 { 0xC75u32 << 6 } else { 0u32 })
        ^ (if q & 0x080 != 0 { 0xC75u32 << 7 } else { 0u32 })
        ^ (if q & 0x100 != 0 { 0xC75u32 << 8 } else { 0u32 })
        ^ (if q & 0x200 != 0 { 0xC75u32 << 9 } else { 0u32 })
        ^ (if q & 0x400 != 0 { 0xC75u32 << 10 } else { 0u32 })
        ^ (if q & 0x800 != 0 { 0xC75u32 << 11 } else { 0u32 })
}

/// The quotient of a codeword and the generator polynomial.
pub open spec fn golay_quotient(d: u16) -> u16 {
    (if d & 0x001 != 0 { 0x000001u16 } else { 0u16 })
        ^ (if d & 0x002 != 0 { 0x000003u16 } else { 0u16 })
        ^ (if d & 0x004 != 0 { 0x000007u16 } else { 0u16 })
        ^ (if d & 0x008 != 0 { 0x00000Fu16 } else { 0u16 })
        ^ (if d & 0x010 != 0 { 0x00001Fu16 } else { 0u16 })
        ^ (if d & 0x020 != 0 { 0x00003Eu16 } else { 0u16 })
        ^ (if d & 0x040 != 0 { 0x00007Cu16 } else { 0u16 })
        ^ (if d & 0x080 != 0 { 0x0000F9u16 } else { 0u16 })
        ^ (if d & 0x100 != 0 { 0x0001F2u16 } else { 0u16 })
        ^ (if d & 0x200 != 0 { 0x0003E4u16 } else { 0u16 })
        ^ (if d & 0x400 != 0 { 0x0007C9u16 } else { 0u16 })
        ^ (if d & 0x800 != 0 { 0x000F92u16 } else { 0u16 })
}

/// How many bits of `x` are set, of the low 24.
pub open spec fn ones24(x: u32) -> int {
    (if x & 0x000001 != 0 { 1int } else { 0int })
        + (if x & 0x000002 != 0 { 1int } else { 0int })
        + (if x & 0x000004 != 0 { 1int } else { 0int })
        + (if x & 0x000008 != 0 { 1int } else { 0int })
        + (if x & 0x000010 != 0 { 1int } else { 0int })
        + (if x & 0x000020 != 0 { 1int } else { 0int })
        + (if x & 0x000040 != 0 { 1int } else { 0int })
        + (if x & 0x000080 != 0 { 1int } else { 0int })
        + (if x & 0x000100 != 0 { 1int } else { 0int })
        + (if x & 0x000200 != 0 { 1int } else { 0int })
        + (if x & 0x000400 != 0 { 1int } else { 0int })
        + (if x & 0x000800 != 0 { 1int } else { 0int })
        + (if x & 0x001000 != 0 { 1int } else { 0int })
        + (if x & 0x002000 != 0 { 1int } else { 0int })
        + (if x & 0x004000 != 0 { 1int } else { 0int })
        + (if x & 0x008000 != 0 { 1int } else { 0int })
        + (if x & 0x010000 != 0 { 1int } else { 0int })
        + (if x & 0x020000 != 0 { 1int } else { 0int })
        + (if x & 0x040000 != 0 { 1int } else { 0int })
        + (if x & 0x080000 != 0 { 1int } else { 0int })
        + (if x & 0x100000 != 0 { 1int } else { 0int })
        + (if x & 0x200000 != 0 { 1int } else { 0int })
        + (if x & 0x400000 != 0 { 1int } else { 0int })
        + (if x & 0x800000 != 0 { 1int } else { 0int })
}

/// The Golay(23,12) codeword of 12 data bits.
pub fn golay_23_12_encode(data: u16) -> (r: u32)
    requires
        data < 0x1000,
    ensures
        r == golay_23_word(data),
{
    let r0: u32 = if data & 0x001 != 0 {
        0x000C75
    } else {
        0
    };
    let r1: u32 = if data & 0x002 != 0 {
        0x00149F
    } else {
        0
    };
    let r2: u32 = if data & 0x004 != 0 {
        0x00254B
    } else {
        0
    };
    let r3: u32 = if data & 0x008 != 0 {
        0x0046E3
    } else {
        0
    };
    let r4: u32 = if data & 0x010 != 0 {
        0x0081B3
    } else {
        0
    };
    let r5: u32 = if data & 0x020 != 0 {
        0x010366
    } else {
        0
    };
    let r6: u32 = if data & 0x040 != 0 {
        0x0206CC
    } else {
        0
    };
    let r7: u32 = if data & 0x080 != 0 {
        0x0401ED
    } else {
        0
    };
    let r8: u32 = if data & 0x100 != 0 {
        0x0803DA
    } else {
        0
    };
    let r9: u32 = if data & 0x200 != 0 {
        0x1007B4
    } else {
        0
    };
    let r10: u32 = if data & 0x400 != 0 {
        0x20031D
    } else {
        0
    };
    let r11: u32 = if data & 0x800 != 0 {
        0x40063A
    } else {
        0
    };
    r0 ^ r1 ^ r2 ^ r3 ^ r4 ^ r5 ^ r6 ^ r7 ^ r8 ^ r9 ^ r10 ^ r11
}

/// The Golay(24,12) codeword of 12 data bits.
pub fn golay_24_12_encode(data: u16) -> (r: u32)
    requires
        data < 0x1000,
    ensures
        r == golay_24_word(data),
{
    let r0: u32 = if data & 0x001 != 0 {
        0x0018EB
    } else {
        0
    };
    let r1: u32 = if data & 0x002 != 0 {
        0x00293E
    } else {
        0
    };
    let r2: u32 = if data & 0x004 != 0 {
        0x004A97
    } else {
        0
    };
    let r3: u32 = if data & 0x008 != 0 {
        0x008DC6
    } else {
        0
    };
    let r4: u32 = if data & 0x010 != 0 {
        0x010367
    } else {
        0
    };
    let r5: u32 = if data & 0x020 != 0 {
        0x0206CD
    } else {
        0
    };
    let r6: u32 = if data & 0x040 != 0 {
        0x040D99
    } else {
        0
    };
    let r7: u32 = if data & 0x080 != 0 {
        0x0803DA
    } else {
        0
    };
    let r8: u32 = if data & 0x100 != 0 {
        0x1007B4
    } else {
        0
    };
    let r9: u32 = if data & 0x200 != 0 {
        0x200F68
    } else {
        0
    };
    let r10: u32 = if data & 0x400 != 0 {
        0x40063B
    } else {
        0
    };
    let r11: u32 = if data & 0x800 != 0 {
        0x800C75
    } else {
        0
    };
    r0 ^ r1 ^ r2 ^ r3 ^ r4 ^ r5 ^ r6 ^ r7 ^ r8 ^ r9 ^ r10 ^ r11
}

/// Law: Golay(23,12) codewords carry their data in the high bits and are
/// multiples of the generator polynomial.
pub proof fn law_golay_23(d: u16)
    by (bit_vector)
    requires
        d < 0x1000,
    ensures
        golay_23_word(d) >> 11 == d,
        golay_23_word(d) == times_generator(golay_quotient(d)),
{
}

/// Law: Golay(24,12) codewords extend Golay(23,12) codewords to an even number
/// of ones.
pub proof fn law_golay_24(d: u16)
    by (bit_vector)
    requires
        d < 0x1000,
    ensures
        golay_24_word(d) >> 1 == golay_23_word(d),
        ones24(golay_24_word(d)) % 2 == 0,
{
}

// ---------------------------------------------------------------------------
// Whitening
// ---------------------------------------------------------------------------

/// State of the generator after `n` steps.
pub open spec fn pn_state(seed: u16, n: nat) -> int
    decreases n,
{
    if n == 0 {
        seed * 16
    } else {
        (PN_MULT * pn_state(seed, (n - 1) as nat) + PN_INC) % (PN_MOD as int)
    }
}

/// Bit `i` of the whitening sequence: the top bit of the next state.
pub open spec fn pn_bit(seed: u16, i: int) -> u8 {
    if pn_state(seed, (i + 1) as nat) >= 0x8000 {
        1
    } else {
        0
    }
}

/// The first `n` bits of the whitening sequence of a 12-bit seed.
pub fn pn_sequence(seed_12: u16, n: usize) -> (out: Vec<bool>)
    requires
        seed_12 < 0x1000,
    ensures
        out@.len() == n,
        forall|i: int| 0 <= i < n ==> #[trigger] out@[i] == (pn_bit(seed_12, i) == 1),
{
    let mut pr: u32 = seed_12 as u32 * 16;
    let mut out: Vec<bool> = Vec::new();
    while out.len() < n
        invariant
            seed_12 < 0x1000,
            out@.len() <= n,
            pr == pn_state(seed_12, out@.len()),
            pr < PN_MOD,
            forall|i: int| 0 <= i < out@.len() ==> #[trigger] out@[i] == (pn_bit(seed_12, i) == 1),
        decreases n - out@.len(),
    {
        pr = (PN_MULT * pr + PN_INC) % PN_MOD;
        out.push(pr >= 0x8000);
    }
    out
}

// ---------------------------------------------------------------------------
// Layout
// ---------------------------------------------------------------------------

/// The channel bit that carries source bit `j`.
pub open spec fn source_at(j: int) -> int {
    if j < 12 {
        4 * j
    } else if j < 24 {
        25 + 4 * (j - 12)
    } else if j < 31 {
        46 + 4 * (j - 24)
    } else if j < 35 {
        3 + 4 * (j - 31)
    } else {
        19 + 4 * (j - 35)
    }
}

/// The place of source bit `j` in a raw frame.
pub open spec fn chip_position(j: int) -> int {
    if j < 14 {
        3 * j
    } else if j < 18 {
        41 + 2 * (j - 14)
    } else if j < 32 {
        1 + 3 * (j - 18)
    } else if j < 36 {
        42 + 2 * (j - 32)
    } else {
        2 + 3 * (j - 36)
    }
}

/// The source bit at place `p` of a raw frame.
pub open spec fn chip_source(p: int) -> int {
    if p < 41 {
        if p % 3 == 0 {
            p / 3
        } else if p % 3 == 1 {
            18 + p / 3
        } else {
            36 + p / 3
        }
    } else if p % 2 == 1 {
        14 + (p - 41) / 2
    } else {
        32 + (p - 42) / 2
    }
}

/// Law: `chip_position` and `chip_source` are inverse permutations.
pub proof fn law_chip_order(j: int)
    requires
        0 <= j < 49,
    ensures
        0 <= chip_position(j) < 49,
        chip_source(chip_position(j)) == j,
        0 <= chip_source(j) < 49,
        chip_position(chip_source(j)) == j,
{
}

/// Twelve bits as a number, most significant first.
pub open spec fn word12(b: Seq<u8>) -> u16 {
    ((b[0] as u16) << 11) | ((b[1] as u16) << 10) | ((b[2] as u16) << 9) | ((b[3] as u16) << 8) | ((
    b[4] as u16) << 7) | ((b[5] as u16) << 6) | ((b[6] as u16) << 5) | ((b[7] as u16) << 4) | ((
    b[8] as u16) << 3) | ((b[9] as u16) << 2) | ((b[10] as u16) << 1) | (b[11] as u16)
}

/// The source bits of a raw frame.
pub open spec fn raw_source(raw: Seq<u8>) -> Seq<u8> {
    Seq::new(49, |j: int| bits_of(raw)[chip_position(j)])
}

/// The source bits that channel bits carry, still whitened.
pub open spec fn carried(coded: Seq<u8>) -> Seq<u8> {
    Seq::new(49, |j: int| bits_of(coded)[source_at(j)])
}

/// Source bits 12 to 23 whitened, or whitened bits restored.
pub open spec fn whitened(b: Seq<u8>) -> Seq<u8> {
    Seq::new(
        49,
        |j: int|
            if 12 <= j < 24 {
                b[j] ^ pn_bit(word12(b), j - 12)
            } else {
                b[j]
            },
    )
}

/// Bit `col` of a codeword.
pub open spec fn code_bit(word: u32, col: int) -> u8 {
    ((word >> col) & 1) as u8
}

/// Channel bit `k` of whitened source bits.
pub open spec fn channel_bit(b: Seq<u8>, k: int) -> u8 {
    let row0 = golay_24_word(word12(b));
    let row1 = golay_23_word(word12(b.subrange(12, 24)));
    if k % 4 == 0 {
        code_bit(row0, 23 - k / 4)
    } else if k % 4 == 1 {
        if k / 4 < 6 {
            code_bit(row0, 5 - k / 4)
        } else {
            code_bit(row1, 28 - k / 4)
        }
    } else if k % 4 == 2 {
        if k / 4 < 11 {
            code_bit(row1, 10 - k / 4)
        } else {
            b[13 + k / 4]
        }
    } else {
        b[31 + k / 4]
    }
}

/// The channel bits of whitened source bits.
pub open spec fn channel_bits(b: Seq<u8>) -> Seq<u8> {
    Seq::new(72, |k: int| channel_bit(b, k))
}

/// The raw frame of source bits: the bits in chip order, then seven zeros.
pub open spec fn chip_bits(b: Seq<u8>) -> Seq<u8> {
    Seq::new(
        56,
        |p: int|
            if p < 49 {
                b[chip_source(p)]
            } else {
                0
            },
    )
}

/// Bit `k` of `bytes`.
fn bit_at(bytes: &[u8], k: usize) -> (r: u8)
    requires
        k < 8 * bytes@.len(),
    ensures
        r == bits_of(bytes@)[k as int],
        r <= 1,
{
    get_bit(bytes[k / 8], k % 8)
}

proof fn lemma_word12_scalars(
    b0: u8, b1: u8, b2: u8, b3: u8, b4: u8, b5: u8, b6: u8, b7: u8, b8: u8, b9: u8, b10: u8, b11: u8,
)
    by (bit_vector)
    requires
        b0 <= 1,
        b1 <= 1,
        b2 <= 1,
        b3 <= 1,
        b4 <= 1,
        b5 <= 1,
        b6 <= 1,
        b7 <= 1,
        b8 <= 1,
        b9 <= 1,
        b10 <= 1,
        b11 <= 1,
    ensures
        (((b0 as u16) << 11) | ((b1 as u16) << 10) | ((b2 as u16) << 9) | ((b3 as u16) << 8) | ((b4 as u16) << 7) | ((b5 as u16) << 6) | ((b6 as u16) << 5) | ((b7 as u16) << 4) | ((b8 as u16) << 3) | ((b9 as u16) << 2) | ((b10 as u16) << 1) | (b11 as u16)) < 0x1000,
        ((((b0 as u16) << 11) | ((b1 as u16) << 10) | ((b2 as u16) << 9) | ((b3 as u16) << 8) | ((b4 as u16) << 7) | ((b5 as u16) << 6) | ((b6 as u16) << 5) | ((b7 as u16) << 4) | ((b8 as u16) << 3) | ((b9 as u16) << 2) | ((b10 as u16) << 1) | (b11 as u16)) >> 11) & 1 == b0,
        ((((b0 as u16) << 11) | ((b1 as u16) << 10) | ((b2 as u16) << 9) | ((b3 as u16) << 8) | ((b4 as u16) << 7) | ((b5 as u16) << 6) | ((b6 as u16) << 5) | ((b7 as u16) << 4) | ((b8 as u16) << 3) | ((b9 as u16) << 2) | ((b10 as u16) << 1) | (b11 as u16)) >> 10) & 1 == b1,
        ((((b0 as u16) << 11) | ((b1 as u16) << 10) | ((b2 as u16) << 9) | ((b3 as u16) << 8) | ((b4 as u16) << 7) | ((b5 as u16) << 6) | ((b6 as u16) << 5) | ((b7 as u16) << 4) | ((b8 as u16) << 3) | ((b9 as u16) << 2) | ((b10 as u16) << 1) | (b11 as u16)) >> 9) & 1 == b2,
        ((((b0 as u16) << 11) | ((b1 as u16) << 10) | ((b2 as u16) << 9) | ((b3 as u16) << 8) | ((b4 as u16) << 7) | ((b5 as u16) << 6) | ((b6 as u16) << 5) | ((b7 as u16) << 4) | ((b8 as u16) << 3) | ((b9 as u16) << 2) | ((b10 as u16) << 1) | (b11 as u16)) >> 8) & 1 == b3,
        ((((b0 as u16) << 11) | ((b1 as u16) << 10) | ((b2 as u16) << 9) | ((b3 as u16) << 8) | ((b4 as u16) << 7) | ((b5 as u16) << 6) | ((b6 as u16) << 5) | ((b7 as u16) << 4) | ((b8 as u16) << 3) | ((b9 as u16) << 2) | ((b10 as u16) << 1) | (b11 as u16)) >> 7) & 1 == b4,
        ((((b0 as u16) << 11) | ((b1 as u16) << 10) | ((b2 as u16) << 9) | ((b3 as u16) << 8) | ((b4 as u16) << 7) | ((b5 as u16) << 6) | ((b6 as u16) << 5) | ((b7 as u16) << 4) | ((b8 as u16) << 3) | ((b9 as u16) << 2) | ((b10 as u16) << 1) | (b11 as u16)) >> 6) & 1 == b5,
        ((((b0 as u16) << 11) | ((b1 as u16) << 10) | ((b2 as u16) << 9) | ((b3 as u16) << 8) | ((b4 as u16) << 7) | ((b5 as u16) << 6) | ((b6 as u16) << 5) | ((b7 as u16) << 4) | ((b8 as u16) << 3) | ((b9 as u16) << 2) | ((b10 as u16) << 1) | (b11 as u16)) >> 5) & 1 == b6,
        ((((b0 as u16) << 11) | ((b1 as u16) << 10) | ((b2 as u16) << 9) | ((b3 as u16) << 8) | ((b4 as u16) << 7) | ((b5 as u16) << 6) | ((b6 as u16) << 5) | ((b7 as u16) << 4) | ((b8 as u16) << 3) | ((b9 as u16) << 2) | ((b10 as u16) << 1) | (b11 as u16)) >> 4) & 1 == b7,
        ((((b0 as u16) << 11) | ((b1 as u16) << 10) | ((b2 as u16) << 9) | ((b3 as u16) << 8) | ((b4 as u16) << 7) | ((b5 as u16) << 6) | ((b6 as u16) << 5) | ((b7 as u16) << 4) | ((b8 as u16) << 3) | ((b9 as u16) << 2) | ((b10 as u16) << 1) | (b11 as u16)) >> 3) & 1 == b8,
        ((((b0 as u16) << 11) | ((b1 as u16) << 10) | ((b2 as u16) << 9) | ((b3 as u16) << 8) | ((b4 as u16) << 7) | ((b5 as u16) << 6) | ((b6 as u16) << 5) | ((b7 as u16) << 4) | ((b8 as u16) << 3) | ((b9 as u16) << 2) | ((b10 as u16) << 1) | (b11 as u16)) >> 2) & 1 == b9,
        ((((b0 as u16) << 11) | ((b1 as u16) << 10) | ((b2 as u16) << 9) | ((b3 as u16) << 8) | ((b4 as u16) << 7) | ((b5 as u16) << 6) | ((b6 as u16) << 5) | ((b7 as u16) << 4) | ((b8 as u16) << 3) | ((b9 as u16) << 2) | ((b10 as u16) << 1) | (b11 as u16)) >> 1) & 1 == b10,
        ((((b0 as u16) << 11) | ((b1 as u16) << 10) | ((b2 as u16) << 9) | ((b3 as u16) << 8) | ((b4 as u16) << 7) | ((b5 as u16) << 6) | ((b6 as u16) << 5) | ((b7 as u16) << 4) | ((b8 as u16) << 3) | ((b9 as u16) << 2) | ((b10 as u16) << 1) | (b11 as u16)) >> 0) & 1 == b11,
{
}

proof fn lemma_word12_range(b: Seq<u8>)
    requires
        b.len() >= 12,
        all_bits(b),
    ensures
        word12(b) < 0x1000,
{
    lemma_word12_scalars(
        b[0], b[1], b[2], b[3], b[4], b[5], b[6], b[7], b[8], b[9], b[10], b[11],
    );
}

/// `word12` of the first twelve of `b`.
fn get_word12(b: &[u8; RAW_BITS], at: usize) -> (r: u16)
    requires
        at + 12 <= 49,
        all_bits(b@),
    ensures
        r == word12(b@.subrange(at as int, at + 12)),
        r < 0x1000,
{
    proof {
        lemma_word12_range(b@.subrange(at as int, at + 12));
    }
    ((b[at] as u16) << 11) | ((b[at + 1] as u16) << 10) | ((b[at + 2] as u16) << 9) | ((b[at
        + 3] as u16) << 8) | ((b[at + 4] as u16) << 7) | ((b[at + 5] as u16) << 6) | ((b[at
        + 6] as u16) << 5) | ((b[at + 7] as u16) << 4) | ((b[at + 8] as u16) << 3) | ((b[at
        + 9] as u16) << 2) | ((b[at + 10] as u16) << 1) | (b[at + 11] as u16)
}

/// Whitens source bits 12 to 23, or restores them.
fn whiten(b: &[u8; RAW_BITS]) -> (r: [u8; RAW_BITS])
    requires
        all_bits(b@),
    ensures
        r@ == whitened(b@),
        all_bits(r@),
{
    let seed: u16 = get_word12(b, 0);
    assert(b@.subrange(0, 12)[0] == b@[0]);
    assert(seed == word12(b@));
    let pr = pn_sequence(seed, 12);
    let mut r: [u8; RAW_BITS] = [0u8; RAW_BITS];
    let mut j: usize = 0;
    while j < RAW_BITS
        invariant
            j <= 49,
            all_bits(b@),
            seed == word12(b@),
            pr@.len() == 12,
            forall|i: int| 0 <= i < 12 ==> #[trigger] pr@[i] == (pn_bit(seed, i) == 1),
            forall|i: int| 0 <= i < j ==> r@[i] == whitened(b@)[i] && r@[i] <= 1,
        decreases 49 - j,
    {
        r[j] = if 12 <= j && j < 24 {
            let mask: u8 = if pr[j - 12] {
                1
            } else {
                0
            };
            assert(mask == pn_bit(seed, j - 12));
            proof {
                lemma_xor_bits(b[j as int], mask);
            }
            b[j] ^ mask
        } else {
            b[j]
        };
        j += 1;
    }
    assert(r@ =~= whitened(b@));
    r
}

/// The source bits of a channel-coded frame.
fn read_source(coded: &[u8; CODED_BYTES]) -> (b: [u8; RAW_BITS])
    ensures
        b@ == whitened(carried(coded@)),
        all_bits(b@),
{
    let mut d: [u8; RAW_BITS] = [0u8; RAW_BITS];
    let mut j: usize = 0;
    while j < RAW_BITS
        invariant
            j <= 49,
            forall|i: int| 0 <= i < j ==> d@[i] == carried(coded@)[i] && d@[i] <= 1,
        decreases 49 - j,
    {
        let at: usize = if j < 12 {
            4 * j
        } else if j < 24 {
            25 + 4 * (j - 12)
        } else if j < 31 {
            46 + 4 * (j - 24)
        } else if j < 35 {
            3 + 4 * (j - 31)
        } else {
            19 + 4 * (j - 35)
        };
        d[j] = bit_at(coded, at);
        j += 1;
    }
    assert(d@ =~= carried(coded@));
    whiten(&d)
}

/// Recovers a raw frame from a channel-coded one.  The data bits are read as
/// they are: no errors are corrected.
pub fn channel_decode(coded: &[u8; CODED_BYTES]) -> (r: [u8; RAW_BYTES])
    ensures
        bits_of(r@) == chip_bits(whitened(carried(coded@))),
{
    let b = read_source(coded);
    pack_chip(&b)
}

/// The source bits of a channel-coded frame in their own order, then seven
/// zeros: the form in which coded calls are recorded.
pub fn to_source_bits(coded: &[u8; CODED_BYTES]) -> (r: [u8; RAW_BYTES])
    ensures
        bits_of(r@) == whitened(carried(coded@)) + Seq::new(7, |i: int| 0u8),
{
    let b = read_source(coded);
    let mut bits: [u8; 56] = [0u8; 56];
    let mut p: usize = 0;
    while p < RAW_BITS
        invariant
            p <= 49,
            all_bits(b@),
            forall|i: int| 0 <= i < p ==> bits@[i] == b@[i] && bits@[i] <= 1,
            forall|i: int| p <= i < 56 ==> bits@[i] == 0,
        decreases 49 - p,
    {
        bits[p] = b[p];
        p += 1;
    }
    assert(bits@ =~= whitened(carried(coded@)) + Seq::new(7, |i: int| 0u8));
    pack(&bits)
}

/// The bytes that 56 bits spell.
fn pack(bits: &[u8; 56]) -> (r: [u8; RAW_BYTES])
    requires
        all_bits(bits@),
    ensures
        bits_of(r@) == bits@,
{
    let mut r: [u8; RAW_BYTES] = [0u8; RAW_BYTES];
    let mut i: usize = 0;
    while i < RAW_BYTES
        invariant
            i <= 7,
            forall|k: int| 0 <= k < i ==> r@[k] == bytes_of(bits@)[k],
        decreases 7 - i,
    {
        r[i] = get_byte(bits, 8 * i);
        i += 1;
    }
    proof {
        assert(r@ =~= bytes_of(bits@));
        law_bits_of_bytes_of(bits@);
    }
    r
}

/// The raw frame of source bits.
fn pack_chip(b: &[u8; RAW_BITS]) -> (r: [u8; RAW_BYTES])
    requires
        all_bits(b@),
    ensures
        bits_of(r@) == chip_bits(b@),
{
    let mut bits: [u8; 56] = [0u8; 56];
    let mut p: usize = 0;
    while p < 56
        invariant
            p <= 56,
            all_bits(b@),
            forall|i: int| 0 <= i < p ==> bits@[i] == chip_bits(b@)[i] && bits@[i] <= 1,
        decreases 56 - p,
    {
        bits[p] = if p < 41 {
            if p % 3 == 0 {
                b[p / 3]
            } else if p % 3 == 1 {
                b[18 + p / 3]
            } else {
                b[36 + p / 3]
            }
        } else if p < 49 {
            if p % 2 == 1 {
                b[14 + (p - 41) / 2]
            } else {
                b[32 + (p - 42) / 2]
            }
        } else {
            0
        };
        p += 1;
    }
    assert(bits@ =~= chip_bits(b@));
    pack(&bits)
}

/// The source bits of a raw frame.
fn unpack_chip(raw: &[u8; RAW_BYTES]) -> (b: [u8; RAW_BITS])
    ensures
        b@ == raw_source(raw@),
        all_bits(b@),
{
    let mut b: [u8; RAW_BITS] = [0u8; RAW_BITS];
    let mut j: usize = 0;
    while j < RAW_BITS
        invariant
            j <= 49,
            forall|i: int| 0 <= i < j ==> b@[i] == raw_source(raw@)[i] && b@[i] <= 1,
        decreases 49 - j,
    {
        let at: usize = if j < 14 {
            3 * j
        } else if j < 18 {
            41 + 2 * (j - 14)
        } else if j < 32 {
            1 + 3 * (j - 18)
        } else if j < 36 {
            42 + 2 * (j - 32)
        } else {
            2 + 3 * (j - 36)
        };
        b[j] = bit_at(raw, at);
        j += 1;
    }
    assert(b@ =~= raw_source(raw@));
    b
}

/// Bit `col` of a codeword.
fn get_code_bit(word: u32, col: usize) -> (r: u8)
    requires
        col < 24,
    ensures
        r == code_bit(word, col as int),
        r <= 1,
{
    let c: u32 = col as u32;
    assert((word >> c) & 1 <= 1) by (bit_vector);
    ((word >> c) & 1) as u8
}

/// Channel-codes a raw frame; the last seven bits of the frame are ignored.
pub fn channel_encode(raw: &[u8; RAW_BYTES]) -> (r: [u8; CODED_BYTES])
    ensures
        bits_of(r@) == channel_bits(whitened(raw_source(raw@))),
{
    let src = unpack_chip(raw);
    let b = whiten(&src);
    let row0: u32 = golay_24_12_encode(get_word12(&b, 0));
    let row1: u32 = golay_23_12_encode(get_word12(&b, 12));
    assert(word12(b@.subrange(0, 12)) == word12(b@));
    let mut bits: [u8; 72] = [0u8; 72];
    let mut k: usize = 0;
    while k < 72
        invariant
            k <= 72,
            all_bits(b@),
            row0 == golay_24_word(word12(b@)),
            row1 == golay_23_word(word12(b@.subrange(12, 24))),
            forall|i: int| 0 <= i < k ==> bits@[i] == channel_bits(b@)[i] && bits@[i] <= 1,
        decreases 72 - k,
    {
        let q: usize = k / 4;
        let m: usize = k % 4;
        let bit: u8 = if m == 0 {
            get_code_bit(row0, 23 - q)
        } else if m == 1 {
            if q < 6 {
                get_code_bit(row0, 5 - q)
            } else {
                get_code_bit(row1, 28 - q)
            }
        } else if m == 2 {
            if q < 11 {
                get_code_bit(row1, 10 - q)
            } else {
                b[13 + q]
            }
        } else {
            b[31 + q]
        };
        assert(bit == channel_bit(b@, k as int));
        assert(bit <= 1);
        bits[k] = bit;
        k += 1;
    }
    assert(bits@ =~= channel_bits(b@));
    let mut r: [u8; CODED_BYTES] = [0u8; CODED_BYTES];
    let mut i: usize = 0;
    while i < CODED_BYTES
        invariant
            i <= 9,
            forall|m: int| 0 <= m < i ==> r@[m] == bytes_of(bits@)[m],
        decreases 9 - i,
    {
        r[i] = get_byte(&bits, 8 * i);
        i += 1;
    }
    proof {
        assert(r@ =~= bytes_of(bits@));
        law_bits_of_bytes_of(bits@);
    }
    r
}

// ---------------------------------------------------------------------------
// Laws
// ---------------------------------------------------------------------------

proof fn lemma_systematic(d: u16)
    by (bit_vector)
    requires
        d < 0x1000,
    ensures
        (golay_24_word(d) >> 23) & 1 == (d >> 11) & 1,
        (golay_24_word(d) >> 22) & 1 == (d >> 10) & 1,
        (golay_24_word(d) >> 21) & 1 == (d >> 9) & 1,
        (golay_24_word(d) >> 20) & 1 == (d >> 8) & 1,
        (golay_24_word(d) >> 19) & 1 == (d >> 7) & 1,
        (golay_24_word(d) >> 18) & 1 == (d >> 6) & 1,
        (golay_24_word(d) >> 17) & 1 == (d >> 5) & 1,
        (golay_24_word(d) >> 16) & 1 == (d >> 4) & 1,
        (golay_24_word(d) >> 15) & 1 == (d >> 3) & 1,
        (golay_24_word(d) >> 14) & 1 == (d >> 2) & 1,
        (golay_24_word(d) >> 13) & 1 == (d >> 1) & 1,
        (golay_24_word(d) >> 12) & 1 == (d >> 0) & 1,
        (golay_23_word(d) >> 22) & 1 == (d >> 11) & 1,
        (golay_23_word(d) >> 21) & 1 == (d >> 10) & 1,
        (golay_23_word(d) >> 20) & 1 == (d >> 9) & 1,
        (golay_23_word(d) >> 19) & 1 == (d >> 8) & 1,
        (golay_23_word(d) >> 18) & 1 == (d >> 7) & 1,
        (golay_23_word(d) >> 17) & 1 == (d >> 6) & 1,
        (golay_23_word(d) >> 16) & 1 == (d >> 5) & 1,
        (golay_23_word(d) >> 15) & 1 == (d >> 4) & 1,
        (golay_23_word(d) >> 14) & 1 == (d >> 3) & 1,
        (golay_23_word(d) >> 13) & 1 == (d >> 2) & 1,
        (golay_23_word(d) >> 12) & 1 == (d >> 1) & 1,
        (golay_23_word(d) >> 11) & 1 == (d >> 0) & 1,
{
}

/// The data bits of a word are found in its codewords.
proof fn lemma_code_bits(b: Seq<u8>, i: int)
    requires
        b.len() >= 12,
        all_bits(b),
        0 <= i < 12,
    ensures
        code_bit(golay_24_word(word12(b)), 23 - i) == b[i],
        code_bit(golay_23_word(word12(b)), 22 - i) == b[i],
{
    lemma_word12_scalars(
        b[0], b[1], b[2], b[3], b[4], b[5], b[6], b[7], b[8], b[9], b[10], b[11],
    );
    lemma_systematic(word12(b));
}

/// Law: whitening twice restores the bits.
pub proof fn law_whitening_involution(b: Seq<u8>)
    requires
        b.len() == 49,
        all_bits(b),
    ensures
        whitened(whitened(b)) == b,
        all_bits(whitened(b)),
{
    let w = whitened(b);
    assert(word12(w) == word12(b));
    assert forall|j: int| 0 <= j < 49 implies w[j] <= 1 && whitened(w)[j] == b[j] by {
        if 12 <= j < 24 {
            let m = pn_bit(word12(b), j - 12);
            lemma_xor_bits(b[j], m);
            lemma_xor_bits(w[j], m);
        }
    }
    assert(whitened(w) =~= b);
}

/// The channel bits of whitened source bits carry them.
proof fn lemma_carried(b: Seq<u8>, coded: Seq<u8>)
    requires
        b.len() == 49,
        all_bits(b),
        bits_of(coded) == channel_bits(b),
    ensures
        carried(coded) == b,
{
    assert forall|j: int| 0 <= j < 49 implies carried(coded)[j] == b[j] by {
        let k = source_at(j);
        assert(bits_of(coded)[k] == channel_bit(b, k));
        if j < 12 {
            assert(k % 4 == 0 && k / 4 == j);
            lemma_code_bits(b, j);
        } else if j < 24 {
            assert(k % 4 == 1 && k / 4 == 6 + (j - 12));
            let c = b.subrange(12, 24);
            lemma_code_bits(c, j - 12);
        } else if j < 31 {
            assert(k % 4 == 2 && k / 4 == 11 + (j - 24));
        } else if j < 35 {
            assert(k % 4 == 3 && k / 4 == j - 31);
        } else {
            assert(k % 4 == 3 && k / 4 == 4 + (j - 35));
        }
    }
    assert(carried(coded) =~= b);
}

/// Law: decoding an encoded frame gives back its 49 bits, in place, and zeros
/// for the seven bits that a raw frame leaves unused.
pub proof fn law_channel_round_trip(raw: Seq<u8>, coded: Seq<u8>, again: Seq<u8>)
    requires
        raw.len() == RAW_BYTES,
        bits_of(coded) == channel_bits(whitened(raw_source(raw))),
        bits_of(again) == chip_bits(whitened(carried(coded))),
    ensures
        forall|p: int| 0 <= p < 49 ==> #[trigger] bits_of(again)[p] == bits_of(raw)[p],
        forall|p: int| 49 <= p < 56 ==> #[trigger] bits_of(again)[p] == 0,
{
    law_source_of_encoded(raw, coded);
    assert forall|p: int| 0 <= p < 49 implies #[trigger] bits_of(again)[p] == bits_of(raw)[p] by {
        law_chip_order(p);
    }
}

/// Law: the source bits that are read from an encoded frame are those of the
/// raw frame.
pub proof fn law_source_of_encoded(raw: Seq<u8>, coded: Seq<u8>)
    requires
        raw.len() == RAW_BYTES,
        bits_of(coded) == channel_bits(whitened(raw_source(raw))),
    ensures
        whitened(carried(coded)) == raw_source(raw),
{
    let src = raw_source(raw);
    assert forall|j: int| 0 <= j < 49 implies src[j] <= 1 by {
        law_chip_order(j);
        let p = chip_position(j);
        lemma_bit_range(raw[p / 8], p % 8);
    }
    law_whitening_involution(src);
    lemma_carried(whitened(src), coded);
}

/// Law: the Golay(23,12) codewords are the linear cyclic code of the generator
/// polynomial x^11 + x^10 + x^6 + x^5 + x^4 + x^2 + 1: sums and rotations of
/// codewords are codewords, the codeword of 1 is the polynomial, and the data
/// stands in the high bits.
pub proof fn law_golay_23_cyclic(a: u16, b: u16, w: u32, rotated: u32)
    by (bit_vector)
    requires
        a < 0x1000,
        b < 0x1000,
        w == golay_23_word(a),
        rotated == ((w << 1) & 0x7FFFFF) | (w >> 22),
    ensures
        w >> 11 == a,
        golay_23_word(a ^ b) == w ^ golay_23_word(b),
        golay_23_word((rotated >> 11) as u16) == rotated,
        golay_23_word(1) == 0b1100_0111_0101,
{
}

/// State of the generator, not reduced.
spec fn pn_unreduced(seed: int, n: nat) -> int
    decreases n,
{
    if n == 0 {
        16 * seed
    } else {
        173 * pn_unreduced(seed, (n - 1) as nat) + 13849
    }
}

proof fn lemma_pn_unreduced(seed: u16, n: nat)
    ensures
        pn_state(seed, n) % 0x10000 == pn_unreduced(seed as int, n) % 0x10000,
        n > 0 ==> 0 <= pn_state(seed, n) < 0x10000,
        pn_unreduced(seed as int, n) == 16 * seed * pow(173, n) + 13849 * ((pow(173, n) - 1) / 172),
        (pow(173, n) - 1) % 172 == 0,
        pow(173, n) >= 1,
    decreases n,
{
    if n == 0 {
        lemma_pow0(173);
        assert(16 * seed * 1 == 16 * seed);
    } else {
        let m = (n - 1) as nat;
        lemma_pn_unreduced(seed, m);
        let (p, q) = (pow(173, m), pow(173, n));
        reveal(pow);
        assert(q == 173 * p);
        let g = (p - 1) / 172;
        assert(p == 172 * g + 1);
        assert(q - 1 == 172 * (173 * g + 1));
        assert((q - 1) / 172 == 173 * g + 1);
        assert(173 * (16 * seed * p) == 16 * seed * q) by (nonlinear_arith)
            requires
                q == 173 * p,
        ;
        let x = pn_unreduced(seed as int, m);
        let y = pn_state(seed, m);
        assert(pn_unreduced(seed as int, n) == 173 * x + 13849);
        assert(pn_state(seed, n) == (173 * y + 13849) % 0x10000);
        let (a, b) = (x / 0x10000, y / 0x10000);
        assert(x == 0x10000 * a + x % 0x10000);
        assert(y == 0x10000 * b + x % 0x10000);
        let r = x % 0x10000;
        lemma_mod_multiples_vanish(173 * a, 173 * r + 13849, 0x10000);
        lemma_mod_multiples_vanish(173 * b, 173 * r + 13849, 0x10000);
        assert(173 * x + 13849 == 0x10000 * (173 * a) + (173 * r + 13849));
        assert(173 * y + 13849 == 0x10000 * (173 * b) + (173 * r + 13849));
    }
}

/// Law: bit `i` of the whitening sequence of a seed is bit 15 of
/// `16 seed p + 13849 (p - 1) / 172`, where `p` is 173 to the power `i + 1`: the
/// top bit of a 16-bit state that starts at 16 times the seed and is multiplied
/// by 173 and increased by 13849 before each bit.
pub proof fn law_whitening_sequence(seed: u16, i: int)
    requires
        0 <= i,
    ensures
        ({
            let p = pow(173, (i + 1) as nat);
            pn_bit(seed, i) as int == (16 * seed * p + 13849 * ((p - 1) / 172)) / 0x8000 % 2
        }),
{
    lemma_pn_unreduced(seed, (i + 1) as nat);
    let x = pn_unreduced(seed as int, (i + 1) as nat);
    let y = pn_state(seed, (i + 1) as nat);
    assert(y == x % 0x10000);
    assert(x == 0x10000 * (x / 0x10000) + y);
    assert(x / 0x8000 == 2 * (x / 0x10000) + y / 0x8000);
}

/// The seed of the whitening sequence is the number that the first twelve bits
/// spell.
proof fn lemma_seed(b: Seq<u8>, seed: u16)
    requires
        b.len() >= 12,
        all_bits(b),
        seed == 2048 * b[0] + 1024 * b[1] + 512 * b[2] + 256 * b[3] + 128 * b[4] + 64 * b[5] + 32
            * b[6] + 16 * b[7] + 8 * b[8] + 4 * b[9] + 2 * b[10] + b[11],
    ensures
        word12(b) == seed,
{
    let (b0, b1, b2, b3, b4, b5) = (b[0], b[1], b[2], b[3], b[4], b[5]);
    let (b6, b7, b8, b9, b10, b11) = (b[6], b[7], b[8], b[9], b[10], b[11]);
    assert((((b0 as u16) << 11) | ((b1 as u16) << 10) | ((b2 as u16) << 9) | ((b3 as u16) << 8) | ((
    b4 as u16) << 7) | ((b5 as u16) << 6) | ((b6 as u16) << 5) | ((b7 as u16) << 4) | ((b8 as u16)
        << 3) | ((b9 as u16) << 2) | ((b10 as u16) << 1) | (b11 as u16)) == 2048 * b0 + 1024 * b1
        + 512 * b2 + 256 * b3 + 128 * b4 + 64 * b5 + 32 * b6 + 16 * b7 + 8 * b8 + 4 * b9 + 2 * b10
        + b11) by (bit_vector)
        requires
            b0 <= 1,
            b1 <= 1,
            b2 <= 1,
            b3 <= 1,
            b4 <= 1,
            b5 <= 1,
            b6 <= 1,
            b7 <= 1,
            b8 <= 1,
            b9 <= 1,
            b10 <= 1,
            b11 <= 1,
    ;
}

proof fn lemma_raw_bits(raw: Seq<u8>)
    requires
        raw.len() == RAW_BYTES,
    ensures
        all_bits(raw_source(raw)),
        bits_of(raw).len() == 56,
{
    assert forall|j: int| 0 <= j < 49 implies raw_source(raw)[j] <= 1 by {
        law_chip_order(j);
        let p = chip_position(j);
        lemma_bit_range(raw[p / 8], p % 8);
    }
}

proof fn lemma_coded_bits(coded: Seq<u8>)
    requires
        coded.len() == CODED_BYTES,
    ensures
        all_bits(carried(coded)),
        bits_of(coded).len() == 72,
{
    assert forall|j: int| 0 <= j < 49 implies carried(coded)[j] <= 1 by {
        let k = source_at(j);
        lemma_bit_range(coded[k / 8], k % 8);
    }
}

/// Law: where the 49 bits of a raw frame stand among the 72 bits of its coded
/// frame, in the clear but for the twelve that are whitened with the sequence of
/// the number that every third bit of the first 36 spells.
pub proof fn law_encoded_places(raw: Seq<u8>, coded: Seq<u8>, seed: u16)
    requires
        raw.len() == RAW_BYTES,
        bits_of(coded) == channel_bits(whitened(raw_source(raw))),
        ({
            let r = bits_of(raw);
            seed == 2048 * r[0] + 1024 * r[3] + 512 * r[6] + 256 * r[9] + 128 * r[12] + 64 * r[15] + 32
                * r[18] + 16 * r[21] + 8 * r[24] + 4 * r[27] + 2 * r[30] + r[33]
        }),
    ensures
        bits_of(coded).len() == 72,
        forall|i: int| 0 <= i < 12 ==> #[trigger] bits_of(coded)[4 * i] == bits_of(raw)[3 * i],
        bits_of(coded)[25] == bits_of(raw)[36] ^ pn_bit(seed, 0),
        bits_of(coded)[29] == bits_of(raw)[39] ^ pn_bit(seed, 1),
        forall|i: int|
            0 <= i < 4 ==> #[trigger] bits_of(coded)[33 + 4 * i] == bits_of(raw)[41 + 2 * i] ^ pn_bit(
                seed,
                2 + i,
            ),
        forall|i: int|
            0 <= i < 6 ==> #[trigger] bits_of(coded)[49 + 4 * i] == bits_of(raw)[1 + 3 * i] ^ pn_bit(
                seed,
                6 + i,
            ),
        forall|i: int| 0 <= i < 7 ==> #[trigger] bits_of(coded)[46 + 4 * i] == bits_of(raw)[19 + 3 * i],
        bits_of(coded)[3] == bits_of(raw)[40],
        forall|i: int| 0 <= i < 4 ==> #[trigger] bits_of(coded)[7 + 4 * i] == bits_of(raw)[42 + 2 * i],
        forall|i: int| 0 <= i < 13 ==> #[trigger] bits_of(coded)[23 + 4 * i] == bits_of(raw)[2 + 3 * i],
{
    let (r, c) = (bits_of(raw), bits_of(coded));
    let src = raw_source(raw);
    let b = whitened(src);
    lemma_raw_bits(raw);
    law_whitening_involution(src);
    lemma_carried(b, coded);
    let got = carried(coded);
    assert(src[0] == r[0] && src[1] == r[3] && src[2] == r[6] && src[3] == r[9]);
    assert(src[4] == r[12] && src[5] == r[15] && src[6] == r[18] && src[7] == r[21]);
    assert(src[8] == r[24] && src[9] == r[27] && src[10] == r[30] && src[11] == r[33]);
    lemma_seed(src, seed);
    assert forall|i: int| 0 <= i < 12 implies #[trigger] c[4 * i] == r[3 * i] by {
        assert(got[i] == b[i]);
    }
    assert(got[12] == b[12]);
    assert(got[13] == b[13]);
    assert forall|i: int| 0 <= i < 4 implies #[trigger] c[33 + 4 * i] == r[41 + 2 * i] ^ pn_bit(
        seed,
        2 + i,
    ) by {
        assert(got[14 + i] == b[14 + i]);
    }
    assert forall|i: int| 0 <= i < 6 implies #[trigger] c[49 + 4 * i] == r[1 + 3 * i] ^ pn_bit(
        seed,
        6 + i,
    ) by {
        assert(got[18 + i] == b[18 + i]);
    }
    assert forall|i: int| 0 <= i < 7 implies #[trigger] c[46 + 4 * i] == r[19 + 3 * i] by {
        assert(got[24 + i] == b[24 + i]);
    }
    assert(got[31] == b[31]);
    assert forall|i: int| 0 <= i < 4 implies #[trigger] c[7 + 4 * i] == r[42 + 2 * i] by {
        assert(got[32 + i] == b[32 + i]);
    }
    assert forall|i: int| 0 <= i < 13 implies #[trigger] c[23 + 4 * i] == r[2 + 3 * i] by {
        assert(got[36 + i] == b[36 + i]);
    }
}

/// Law: where the parity of a coded frame stands: bits 0, 4, 8 and so on to 68 and
/// then 1, 5 and so on to 21 are a Golay(24,12) codeword from its top bit down;
/// bits 25, 29 and so on to 69 and then 2, 6 and so on to 42 are a Golay(23,12)
/// codeword.
pub proof fn law_encoded_parity(raw: Seq<u8>, coded: Seq<u8>, high: u16, low: u16)
    requires
        raw.len() == RAW_BYTES,
        bits_of(coded) == channel_bits(whitened(raw_source(raw))),
        ({
            let c = bits_of(coded);
            &&& high == 2048 * c[0] + 1024 * c[4] + 512 * c[8] + 256 * c[12] + 128 * c[16] + 64 * c[20]
                + 32 * c[24] + 16 * c[28] + 8 * c[32] + 4 * c[36] + 2 * c[40] + c[44]
            &&& low == 2048 * c[25] + 1024 * c[29] + 512 * c[33] + 256 * c[37] + 128 * c[41] + 64 * c[45]
                + 32 * c[49] + 16 * c[53] + 8 * c[57] + 4 * c[61] + 2 * c[65] + c[69]
        }),
    ensures
        forall|i: int|
            0 <= i < 18 ==> #[trigger] bits_of(coded)[4 * i] == (golay_24_word(high) >> (23 - i)) & 1,
        forall|i: int|
            0 <= i < 6 ==> #[trigger] bits_of(coded)[4 * i + 1] == (golay_24_word(high) >> (5 - i)) & 1,
        forall|i: int|
            6 <= i < 18 ==> #[trigger] bits_of(coded)[4 * i + 1] == (golay_23_word(low) >> (28 - i)) & 1,
        forall|i: int|
            0 <= i < 11 ==> #[trigger] bits_of(coded)[4 * i + 2] == (golay_23_word(low) >> (10 - i)) & 1,
{
    let c = bits_of(coded);
    let src = raw_source(raw);
    let b = whitened(src);
    lemma_raw_bits(raw);
    law_whitening_involution(src);
    lemma_carried(b, coded);
    let got = carried(coded);
    assert(b[0] == c[0] && b[1] == c[4] && b[2] == c[8] && b[3] == c[12] && b[4] == c[16] && b[5]
        == c[20] && b[6] == c[24] && b[7] == c[28] && b[8] == c[32] && b[9] == c[36] && b[10] == c[40]
        && b[11] == c[44]);
    lemma_seed(b, high);
    let t = b.subrange(12, 24);
    assert(all_bits(t));
    assert(b[12] == c[25] && b[13] == c[29] && b[14] == c[33] && b[15] == c[37] && b[16] == c[41]
        && b[17] == c[45] && b[18] == c[49] && b[19] == c[53] && b[20] == c[57] && b[21] == c[61]
        && b[22] == c[65] && b[23] == c[69]);
    lemma_seed(t, low);
    let (row0, row1) = (golay_24_word(high), golay_23_word(low));
    assert forall|i: int| 0 <= i < 18 implies #[trigger] c[4 * i] == (row0 >> (23 - i)) & 1 by {
        lemma_code_bit(row0, 23 - i);
        assert(c[4 * i] == channel_bit(b, 4 * i));
    }
    assert forall|i: int| 0 <= i < 6 implies #[trigger] c[4 * i + 1] == (row0 >> (5 - i)) & 1 by {
        lemma_code_bit(row0, 5 - i);
        assert(c[4 * i + 1] == channel_bit(b, 4 * i + 1));
    }
    assert forall|i: int| 6 <= i < 18 implies #[trigger] c[4 * i + 1] == (row1 >> (28 - i)) & 1 by {
        lemma_code_bit(row1, 28 - i);
        assert(c[4 * i + 1] == channel_bit(b, 4 * i + 1));
    }
    assert forall|i: int| 0 <= i < 11 implies #[trigger] c[4 * i + 2] == (row1 >> (10 - i)) & 1 by {
        lemma_code_bit(row1, 10 - i);
        assert(c[4 * i + 2] == channel_bit(b, 4 * i + 2));
    }
}

proof fn lemma_code_bit(word: u32, col: int)
    requires
        0 <= col < 24,
    ensures
        code_bit(word, col) == (word >> col) & 1,
{
    let c = col as u32;
    assert((word >> c) & 1 <= 1) by (bit_vector);
}

/// Law: where the 49 bits of a decoded frame come from among the 72 of a received
/// frame, whatever those are: the data bits of the two codewords, the second with
/// the whitening of the first taken off, and the bits without protection.
pub proof fn law_decoded_places(coded: Seq<u8>, raw: Seq<u8>, seed: u16)
    requires
        coded.len() == CODED_BYTES,
        bits_of(raw) == chip_bits(whitened(carried(coded))),
        ({
            let c = bits_of(coded);
            seed == 2048 * c[0] + 1024 * c[4] + 512 * c[8] + 256 * c[12] + 128 * c[16] + 64 * c[20] + 32
                * c[24] + 16 * c[28] + 8 * c[32] + 4 * c[36] + 2 * c[40] + c[44]
        }),
    ensures
        bits_of(raw).len() == 56,
        forall|i: int| 0 <= i < 12 ==> #[trigger] bits_of(raw)[3 * i] == bits_of(coded)[4 * i],
        bits_of(raw)[36] == bits_of(coded)[25] ^ pn_bit(seed, 0),
        bits_of(raw)[39] == bits_of(coded)[29] ^ pn_bit(seed, 1),
        forall|i: int|
            0 <= i < 4 ==> #[trigger] bits_of(raw)[41 + 2 * i] == bits_of(coded)[33 + 4 * i] ^ pn_bit(
                seed,
                2 + i,
            ),
        forall|i: int|
            0 <= i < 6 ==> #[trigger] bits_of(raw)[1 + 3 * i] == bits_of(coded)[49 + 4 * i] ^ pn_bit(
                seed,
                6 + i,
            ),
        forall|i: int| 0 <= i < 7 ==> #[trigger] bits_of(raw)[19 + 3 * i] == bits_of(coded)[46 + 4 * i],
        bits_of(raw)[40] == bits_of(coded)[3],
        forall|i: int| 0 <= i < 4 ==> #[trigger] bits_of(raw)[42 + 2 * i] == bits_of(coded)[7 + 4 * i],
        forall|i: int| 0 <= i < 13 ==> #[trigger] bits_of(raw)[2 + 3 * i] == bits_of(coded)[23 + 4 * i],
        forall|p: int| 49 <= p < 56 ==> #[trigger] bits_of(raw)[p] == 0,
{
    let (r, c) = (bits_of(raw), bits_of(coded));
    let d = carried(coded);
    lemma_coded_bits(coded);
    assert(d[0] == c[0] && d[1] == c[4] && d[2] == c[8] && d[3] == c[12] && d[4] == c[16] && d[5]
        == c[20] && d[6] == c[24] && d[7] == c[28] && d[8] == c[32] && d[9] == c[36] && d[10] == c[40]
        && d[11] == c[44]);
    lemma_seed(d, seed);
    let b = whitened(d);
    assert forall|j: int| 0 <= j < 49 implies r[chip_position(j)] == #[trigger] b[j] by {
        law_chip_order(j);
    }
    assert forall|i: int| 0 <= i < 12 implies #[trigger] r[3 * i] == c[4 * i] by {
        assert(r[chip_position(i)] == b[i]);
    }
    assert(r[chip_position(12)] == b[12]);
    assert(r[chip_position(13)] == b[13]);
    assert forall|i: int| 0 <= i < 4 implies #[trigger] r[41 + 2 * i] == c[33 + 4 * i] ^ pn_bit(
        seed,
        2 + i,
    ) by {
        assert(r[chip_position(14 + i)] == b[14 + i]);
    }
    assert forall|i: int| 0 <= i < 6 implies #[trigger] r[1 + 3 * i] == c[49 + 4 * i] ^ pn_bit(
        seed,
        6 + i,
    ) by {
        assert(r[chip_position(18 + i)] == b[18 + i]);
    }
    assert forall|i: int| 0 <= i < 7 implies #[trigger] r[19 + 3 * i] == c[46 + 4 * i] by {
        assert(r[chip_position(24 + i)] == b[24 + i]);
    }
    assert(r[chip_position(31)] == b[31]);
    assert forall|i: int| 0 <= i < 4 implies #[trigger] r[42 + 2 * i] == c[7 + 4 * i] by {
        assert(r[chip_position(32 + i)] == b[32 + i]);
    }
    assert forall|i: int| 0 <= i < 13 implies #[trigger] r[2 + 3 * i] == c[23 + 4 * i] by {
        assert(r[chip_position(36 + i)] == b[36 + i]);
    }
}

/// Law: the source bits of a frame in their own order are those of the raw frame
/// that it decodes to, in thirds: bits 0, 3 and so on, bits 1, 4 and so on and bits
/// 2, 5 and so on of the first 41, with the last eight dealt out to the first two.
pub proof fn law_source_order(coded: Seq<u8>, raw: Seq<u8>, source: Seq<u8>)
    requires
        coded.len() == CODED_BYTES,
        bits_of(raw) == chip_bits(whitened(carried(coded))),
        bits_of(source) == whitened(carried(coded)) + Seq::new(7, |i: int| 0u8),
    ensures
        forall|i: int| 0 <= i < 14 ==> #[trigger] bits_of(source)[i] == bits_of(raw)[3 * i],
        forall|i: int| 0 <= i < 4 ==> #[trigger] bits_of(source)[14 + i] == bits_of(raw)[41 + 2 * i],
        forall|i: int| 0 <= i < 14 ==> #[trigger] bits_of(source)[18 + i] == bits_of(raw)[1 + 3 * i],
        forall|i: int| 0 <= i < 4 ==> #[trigger] bits_of(source)[32 + i] == bits_of(raw)[42 + 2 * i],
        forall|i: int| 0 <= i < 13 ==> #[trigger] bits_of(source)[36 + i] == bits_of(raw)[2 + 3 * i],
        forall|i: int| 49 <= i < 56 ==> #[trigger] bits_of(source)[i] == 0,
{
    let b = whitened(carried(coded));
    let (s, r) = (bits_of(source), bits_of(raw));
    assert forall|j: int| 0 <= j < 49 implies r[chip_position(j)] == #[trigger] s[j] by {
        law_chip_order(j);
    }
    assert forall|i: int| 0 <= i < 4 implies #[trigger] s[14 + i] == r[41 + 2 * i] by {
        assert(r[chip_position(14 + i)] == s[14 + i]);
    }
    assert forall|i: int| 0 <= i < 14 implies #[trigger] s[18 + i] == r[1 + 3 * i] by {
        assert(r[chip_position(18 + i)] == s[18 + i]);
    }
    assert forall|i: int| 0 <= i < 4 implies #[trigger] s[32 + i] == r[42 + 2 * i] by {
        assert(r[chip_position(32 + i)] == s[32 + i]);
    }
    assert forall|i: int| 0 <= i < 13 implies #[trigger] s[36 + i] == r[2 + 3 * i] by {
        assert(r[chip_position(36 + i)] == s[36 + i]);
    }
}

} // verus!
