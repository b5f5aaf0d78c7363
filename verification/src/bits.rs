//! Bytes as eight bits, most significant bit first.

use vstd::prelude::*;

use crate::fec::all_bits;

verus! {

/// Bit `i` of a byte, counted from the most significant.
pub open spec fn bit_of(byte: u8, i: int) -> u8 {
    (byte >> (7 - i)) & 1
}

/// The byte whose bits are the low bits of the arguments.
pub open spec fn byte_from(b0: u8, b1: u8, b2: u8, b3: u8, b4: u8, b5: u8, b6: u8, b7: u8) -> u8 {
    ((b0 & 1) << 7) | ((b1 & 1) << 6) | ((b2 & 1) << 5) | ((b3 & 1) << 4) | ((b4 & 1) << 3) | ((b5
        & 1) << 2) | ((b6 & 1) << 1) | (b7 & 1)
}

/// The byte whose bits are the low bits of `b[at..at + 8]`.
pub open spec fn byte_at(b: Seq<u8>, at: int) -> u8 {
    byte_from(b[at], b[at + 1], b[at + 2], b[at + 3], b[at + 4], b[at + 5], b[at + 6], b[at + 7])
}

/// The bits of `bytes`.
pub open spec fn bits_of(bytes: Seq<u8>) -> Seq<u8> {
    Seq::new(8 * bytes.len(), |k: int| bit_of(bytes[k / 8], k % 8))
}

/// The bytes that `bits` spell, eight to a byte.
pub open spec fn bytes_of(bits: Seq<u8>) -> Seq<u8> {
    Seq::new(bits.len() / 8, |i: int| byte_at(bits, 8 * i))
}

proof fn lemma_byte_scalars(x: u8, b0: u8, b1: u8, b2: u8, b3: u8, b4: u8, b5: u8, b6: u8, b7: u8)
    by (bit_vector)
    ensures
        byte_from(
            (x >> 7) & 1,
            (x >> 6) & 1,
            (x >> 5) & 1,
            (x >> 4) & 1,
            (x >> 3) & 1,
            (x >> 2) & 1,
            (x >> 1) & 1,
            (x >> 0) & 1,
        ) == x,
        (byte_from(b0, b1, b2, b3, b4, b5, b6, b7) >> 7) & 1 == b0 & 1,
        (byte_from(b0, b1, b2, b3, b4, b5, b6, b7) >> 6) & 1 == b1 & 1,
        (byte_from(b0, b1, b2, b3, b4, b5, b6, b7) >> 5) & 1 == b2 & 1,
        (byte_from(b0, b1, b2, b3, b4, b5, b6, b7) >> 4) & 1 == b3 & 1,
        (byte_from(b0, b1, b2, b3, b4, b5, b6, b7) >> 3) & 1 == b4 & 1,
        (byte_from(b0, b1, b2, b3, b4, b5, b6, b7) >> 2) & 1 == b5 & 1,
        (byte_from(b0, b1, b2, b3, b4, b5, b6, b7) >> 1) & 1 == b6 & 1,
        (byte_from(b0, b1, b2, b3, b4, b5, b6, b7) >> 0) & 1 == b7 & 1,
        b0 <= 1 ==> b0 & 1 == b0,
        b1 <= 1 ==> b1 & 1 == b1,
        b2 <= 1 ==> b2 & 1 == b2,
        b3 <= 1 ==> b3 & 1 == b3,
        b4 <= 1 ==> b4 & 1 == b4,
        b5 <= 1 ==> b5 & 1 == b5,
        b6 <= 1 ==> b6 & 1 == b6,
        b7 <= 1 ==> b7 & 1 == b7,
        (x >> 7) & 1 <= 1,
        (x >> 6) & 1 <= 1,
        (x >> 5) & 1 <= 1,
        (x >> 4) & 1 <= 1,
        (x >> 3) & 1 <= 1,
        (x >> 2) & 1 <= 1,
        (x >> 1) & 1 <= 1,
        (x >> 0) & 1 <= 1,
{
}

/// Bits are bits.
pub proof fn lemma_bit_range(x: u8, i: int)
    requires
        0 <= i < 8,
    ensures
        bit_of(x, i) <= 1,
{
    lemma_byte_scalars(x, 0, 0, 0, 0, 0, 0, 0, 0);
}

/// The eight bits of a byte spell the byte.
pub proof fn lemma_bits_spell_byte(x: u8, b: Seq<u8>, at: int)
    requires
        forall|i: int| 0 <= i < 8 ==> b[at + i] == #[trigger] bit_of(x, i),
    ensures
        byte_at(b, at) == x,
{
    lemma_byte_scalars(x, 0, 0, 0, 0, 0, 0, 0, 0);
    assert(b[at + 0] == bit_of(x, 0));
    assert(b[at + 1] == bit_of(x, 1));
    assert(b[at + 2] == bit_of(x, 2));
    assert(b[at + 3] == bit_of(x, 3));
    assert(b[at + 4] == bit_of(x, 4));
    assert(b[at + 5] == bit_of(x, 5));
    assert(b[at + 6] == bit_of(x, 6));
    assert(b[at + 7] == bit_of(x, 7));
}

/// The bits of a spelled byte are the low bits that spelled it.
pub proof fn lemma_byte_has_bits(b: Seq<u8>, at: int, i: int)
    requires
        0 <= i < 8,
    ensures
        bit_of(byte_at(b, at), i) == b[at + i] & 1,
        b[at + i] <= 1 ==> bit_of(byte_at(b, at), i) == b[at + i],
{
    lemma_byte_scalars(
        0,
        b[at],
        b[at + 1],
        b[at + 2],
        b[at + 3],
        b[at + 4],
        b[at + 5],
        b[at + 6],
        b[at + 7],
    );
}

/// Law: spelling the bits of bytes gives the bytes back.
pub proof fn law_bytes_of_bits_of(bytes: Seq<u8>)
    ensures
        bytes_of(bits_of(bytes)) == bytes,
        all_bits(bits_of(bytes)),
{
    let bits = bits_of(bytes);
    assert forall|i: int| 0 <= i < bytes.len() implies byte_at(bits, 8 * i) == bytes[i] by {
        assert forall|j: int| 0 <= j < 8 implies bits[8 * i + j] == #[trigger] bit_of(bytes[i], j) by {
            assert((8 * i + j) / 8 == i && (8 * i + j) % 8 == j);
        }
        lemma_bits_spell_byte(bytes[i], bits, 8 * i);
    }
    assert forall|k: int| 0 <= k < bits.len() implies bits[k] <= 1 by {
        lemma_bit_range(bytes[k / 8], k % 8);
    }
    assert(bytes_of(bits) =~= bytes);
}

/// Law: the bits of spelled bytes are the bits that spelled them.
pub proof fn law_bits_of_bytes_of(bits: Seq<u8>)
    requires
        all_bits(bits),
        bits.len() % 8 == 0,
    ensures
        bits_of(bytes_of(bits)) == bits,
{
    let bytes = bytes_of(bits);
    assert forall|k: int| 0 <= k < bits.len() implies bits_of(bytes)[k] == bits[k] by {
        lemma_byte_has_bits(bits, 8 * (k / 8), k % 8);
        assert(8 * (k / 8) + k % 8 == k);
    }
    assert(bits_of(bytes) =~= bits);
}

/// Bit `i` of `byte`, counted from the most significant.
pub fn get_bit(byte: u8, i: usize) -> (r: u8)
    requires
        i < 8,
    ensures
        r == bit_of(byte, i as int),
        r <= 1,
{
    proof {
        lemma_bit_range(byte, i as int);
    }
    (byte >> (7 - i)) & 1
}

/// The byte that the low bits of `b[at..at + 8]` spell.
pub fn get_byte(b: &[u8], at: usize) -> (r: u8)
    requires
        at + 8 <= b@.len(),
    ensures
        r == byte_at(b@, at as int),
{
    ((b[at] & 1) << 7) | ((b[at + 1] & 1) << 6) | ((b[at + 2] & 1) << 5) | ((b[at + 3] & 1) << 4)
        | ((b[at + 4] & 1) << 3) | ((b[at + 5] & 1) << 2) | ((b[at + 6] & 1) << 1) | (b[at + 7] & 1)
}

/// Law: eight bits are the binary digits of a byte, the most significant first.
pub proof fn law_bits_spell(bytes: Seq<u8>, i: int)
    requires
        0 <= i < bytes.len(),
    ensures
        bits_of(bytes).len() == 8 * bytes.len(),
        forall|j: int| 0 <= j < 8 ==> #[trigger] bits_of(bytes)[8 * i + j] <= 1,
        bytes[i] == 128 * bits_of(bytes)[8 * i] + 64 * bits_of(bytes)[8 * i + 1] + 32 * bits_of(
            bytes,
        )[8 * i + 2] + 16 * bits_of(bytes)[8 * i + 3] + 8 * bits_of(bytes)[8 * i + 4] + 4 * bits_of(
            bytes,
        )[8 * i + 5] + 2 * bits_of(bytes)[8 * i + 6] + bits_of(bytes)[8 * i + 7],
{
    let x = bytes[i];
    assert(x == 128 * ((x >> 7) & 1) + 64 * ((x >> 6) & 1) + 32 * ((x >> 5) & 1) + 16 * ((x >> 4) & 1)
        + 8 * ((x >> 3) & 1) + 4 * ((x >> 2) & 1) + 2 * ((x >> 1) & 1) + ((x >> 0) & 1))
        by (bit_vector);
    assert forall|j: int| 0 <= j < 8 implies #[trigger] bits_of(bytes)[8 * i + j] <= 1 && bits_of(
        bytes,
    )[8 * i + j] == bit_of(x, j) by {
        assert((8 * i + j) / 8 == i && (8 * i + j) % 8 == j);
        lemma_bit_range(x, j);
    }
    assert(bits_of(bytes)[8 * i + 0] == bit_of(x, 0));
    assert(bits_of(bytes)[8 * i + 1] == bit_of(x, 1));
    assert(bits_of(bytes)[8 * i + 2] == bit_of(x, 2));
    assert(bits_of(bytes)[8 * i + 3] == bit_of(x, 3));
    assert(bits_of(bytes)[8 * i + 4] == bit_of(x, 4));
    assert(bits_of(bytes)[8 * i + 5] == bit_of(x, 5));
    assert(bits_of(bytes)[8 * i + 6] == bit_of(x, 6));
    assert(bits_of(bytes)[8 * i + 7] == bit_of(x, 7));
}

/// Law: eight bits spell the byte of which they are the binary digits.
pub proof fn law_spelled_byte(bits: Seq<u8>, i: int)
    requires
        all_bits(bits),
        0 <= i < bits.len() / 8,
    ensures
        bytes_of(bits).len() == bits.len() / 8,
        bytes_of(bits)[i] == 128 * bits[8 * i] + 64 * bits[8 * i + 1] + 32 * bits[8 * i + 2] + 16
            * bits[8 * i + 3] + 8 * bits[8 * i + 4] + 4 * bits[8 * i + 5] + 2 * bits[8 * i + 6] + bits[8
            * i + 7],
{
    let b = Seq::new(8, |j: int| bits[8 * i + j]);
    law_bits_of_bytes_of(b);
    law_bits_spell(bytes_of(b), 0);
    assert(byte_at(b, 0) == byte_at(bits, 8 * i));
}

} // verus!
