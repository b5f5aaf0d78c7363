//! Integers and audio samples as bytes.

use vstd::endian::*;
use vstd::prelude::*;

verus! {

/// Largest value of a 24-bit wire field.
pub const MAX_24BIT: u32 = 0x00FF_FFFF;

/// The number that three big-endian bytes spell.
pub open spec fn be24(b0: u8, b1: u8, b2: u8) -> int {
    b0 * 0x1_0000 + b1 * 0x100 + b2
}

/// The number that four big-endian bytes spell.
pub open spec fn be32(b0: u8, b1: u8, b2: u8, b3: u8) -> int {
    b0 * 0x100_0000 + b1 * 0x1_0000 + b2 * 0x100 + b3
}

/// The number in two bytes in the machine's byte order.
///
/// Calls `u16::from_ne_bytes`, which reads its bytes in that order.
#[verifier::external_body]
fn native_u16(bytes: [u8; 2]) -> (r: u16)
    ensures
        r == if endianness() is Little {
            bytes[0] + 0x100 * bytes[1]
        } else {
            0x100 * bytes[0] + bytes[1]
        },
{
    u16::from_ne_bytes(bytes)
}

/// Whether this machine stores the low byte first.
pub(crate) fn native_low_first() -> (r: bool)
    ensures
        r == (endianness() is Little),
{
    native_u16([1, 0]) == 1
}

/// `x` as four bytes, most significant first.
pub fn u32_to_be(x: u32) -> (r: [u8; 4])
    ensures
        be32(r[0], r[1], r[2], r[3]) == x,
{
    assert(x / 0x100_0000 < 0x100 && x == x / 0x100_0000 * 0x100_0000 + x / 0x1_0000 % 0x100
        * 0x1_0000 + x / 0x100 % 0x100 * 0x100 + x % 0x100) by (bit_vector);
    [
        (x / 0x100_0000) as u8,
        (x / 0x1_0000 % 0x100) as u8,
        (x / 0x100 % 0x100) as u8,
        (x % 0x100) as u8,
    ]
}

/// The number spelled by four bytes, most significant first.
pub fn u32_from_be(b0: u8, b1: u8, b2: u8, b3: u8) -> (r: u32)
    ensures
        r == be32(b0, b1, b2, b3),
{
    b0 as u32 * 0x100_0000 + b1 as u32 * 0x1_0000 + b2 as u32 * 0x100 + b3 as u32
}

/// The number spelled by three bytes, most significant first.
pub fn u24_from_be(b0: u8, b1: u8, b2: u8) -> (r: u32)
    ensures
        r == be24(b0, b1, b2),
{
    b0 as u32 * 0x1_0000 + b1 as u32 * 0x100 + b2 as u32
}

/// Encodes an identifier for a 24-bit on-air field.  Wider identifiers are
/// left out: truncating one would alias it onto an unrelated subscriber.
pub fn id_to_24_be(id: u32) -> (r: [u8; 3])
    requires
        id <= MAX_24BIT,
    ensures
        be24(r[0], r[1], r[2]) == id,
{
    [(id / 0x1_0000) as u8, (id / 0x100 % 0x100) as u8, (id % 0x100) as u8]
}

/// Three big-endian bytes are determined by the number they spell.
pub proof fn lemma_be24_injective(a: (u8, u8, u8), b: (u8, u8, u8))
    requires
        be24(a.0, a.1, a.2) == be24(b.0, b.1, b.2),
    ensures
        a == b,
{
}

/// Four big-endian bytes are determined by the number they spell.
pub proof fn lemma_be32_injective(a: (u8, u8, u8, u8), b: (u8, u8, u8, u8))
    requires
        be32(a.0, a.1, a.2, a.3) == be32(b.0, b.1, b.2, b.3),
    ensures
        a == b,
{
}

/// The sample with the given low and high byte.
pub open spec fn sample_of(lo: u8, hi: u8) -> int {
    let v = lo + 0x100 * hi;
    if v >= 0x8000 {
        v - 0x1_0000
    } else {
        v
    }
}

/// The sample with the given low and high byte.
pub fn sample_from(lo: u8, hi: u8) -> (r: i16)
    ensures
        r == sample_of(lo, hi),
{
    let v: i32 = lo as i32 + 0x100 * hi as i32;
    if v >= 0x8000 {
        (v - 0x1_0000) as i16
    } else {
        v as i16
    }
}

/// The low and high byte of a sample.
pub fn sample_bytes(s: i16) -> (r: (u8, u8))
    ensures
        sample_of(r.0, r.1) == s,
{
    let v: i32 = if s < 0 {
        s as i32 + 0x1_0000
    } else {
        s as i32
    };
    ((v % 0x100) as u8, (v / 0x100) as u8)
}

/// Law: bytes with the most significant first are the digits of a number to the
/// base 256, and the bytes of a sample those of the number that is congruent to it
/// modulo 65536.
pub proof fn law_byte_orders(b0: u8, b1: u8, b2: u8, b3: u8)
    ensures
        be24(b0, b1, b2) == (b0 * 256 + b1) * 256 + b2,
        be32(b0, b1, b2, b3) == ((b0 * 256 + b1) * 256 + b2) * 256 + b3,
        -32768 <= sample_of(b0, b1) < 32768,
        sample_of(b0, b1) == b0 + 256 * b1 || sample_of(b0, b1) == b0 + 256 * b1 - 65536,
{
}

} // verus!
