//! Talker alias: the callsign that a radio shows next to the subscriber ID.
//!
//! An alias of up to 31 ASCII characters, seven bits each, travels in one
//! header LC (the length and the first seven characters) and up to three block
//! LCs of eight characters.

use vstd::prelude::*;
use vstd::slice::slice_subrange;
use vstd::string::*;
use vstd::utf8::*;

use crate::bits::{bit_of, bits_of, get_bit, law_bits_of_bytes_of};
use crate::embedded_lc::lc_bytes_of;
use crate::fec::all_bits;
use crate::text::lemma_encode_ascii;

verus! {

/// Characters in the header.
pub const HEADER_CHARS: usize = 7;

/// Characters in a block.
pub const BLOCK_CHARS: usize = 8;

/// Blocks after the header.
pub const MAX_BLOCKS: usize = 3;

/// Characters of the longest alias.
pub const MAX_ALIAS_CHARS: usize = 31;

/// Opcode of the header LC.
pub const FLCO_TA_HEADER: u8 = 0x04;

/// Opcode of the first block LC; the others follow.
pub const FLCO_TA_BLOCK_1: u8 = 0x05;

/// Opcode of the second block LC.
pub const FLCO_TA_BLOCK_2: u8 = 0x06;

/// Opcode of the third block LC.
pub const FLCO_TA_BLOCK_3: u8 = 0x07;

/// Bits of an LC.
pub const LC_BITS: usize = 72;

/// Bit `k` of the characters, seven bits each, followed by zeros.
pub open spec fn alias_bit(chars: Seq<u8>, k: int) -> u8 {
    if k / 7 < chars.len() {
        bit_of(chars[k / 7], 1 + k % 7)
    } else {
        0
    }
}

/// The header LC: opcode, a zero byte, the low seven bits of the length, 49
/// bits of characters.
pub open spec fn header_lc(total: u8, head: Seq<u8>) -> Seq<u8> {
    Seq::new(
        72,
        |k: int|
            if k < 8 {
                bit_of(FLCO_TA_HEADER, k)
            } else if k < 16 {
                0
            } else if k < 23 {
                bit_of(total, k - 15)
            } else {
                alias_bit(head, k - 23)
            },
    )
}

/// A block LC: opcode, a zero byte, 56 bits of characters.
pub open spec fn block_lc(flco: u8, chunk: Seq<u8>) -> Seq<u8> {
    Seq::new(
        72,
        |k: int|
            if k < 8 {
                bit_of(flco, k)
            } else if k < 16 {
                0
            } else {
                alias_bit(chunk, k - 16)
            },
    )
}

/// Characters of an alias that fit into its header.
pub open spec fn head_len(n: int) -> int {
    if n < 7 {
        n
    } else {
        7
    }
}

/// Blocks that an alias of `n` characters needs.
pub open spec fn blocks_needed(n: int) -> int {
    (n - head_len(n) + 7) / 8
}

/// The characters of block `i`.
pub open spec fn chunk_of(chars: Seq<u8>, i: int) -> Seq<u8> {
    let end = if 15 + 8 * i < chars.len() {
        15 + 8 * i
    } else {
        chars.len() as int
    };
    chars.subrange(7 + 8 * i, end)
}

/// The text can be sent as an alias.
pub open spec fn is_alias(text: Seq<char>) -> bool {
    is_ascii_chars(text) && 0 < encode_utf8(text).len() <= MAX_ALIAS_CHARS
}

/// The LCs that carry an alias: header, then blocks; none for other text.
pub open spec fn alias_lcs(text: Seq<char>) -> Seq<Seq<u8>> {
    let b = encode_utf8(text);
    if !is_alias(text) {
        Seq::empty()
    } else {
        Seq::new(
            (1 + blocks_needed(b.len() as int)) as nat,
            |i: int|
                if i == 0 {
                    header_lc(b.len() as u8, b.subrange(0, head_len(b.len() as int)))
                } else {
                    block_lc((FLCO_TA_HEADER + i) as u8, chunk_of(b, i - 1))
                },
        )
    }
}

/// Bit `k` of the characters.
fn get_alias_bit(chars: &[u8], k: usize) -> (r: u8)
    ensures
        r == alias_bit(chars@, k as int),
        r <= 1,
{
    if k / 7 < chars.len() {
        get_bit(chars[k / 7], 1 + k % 7)
    } else {
        0
    }
}

fn build_header(total: u8, head: &[u8]) -> (bits: [u8; LC_BITS])
    ensures
        bits@ == header_lc(total, head@),
        all_bits(bits@),
{
    let mut bits: [u8; LC_BITS] = [0u8; LC_BITS];
    let mut k: usize = 0;
    while k < LC_BITS
        invariant
            k <= 72,
            forall|j: int| 0 <= j < k ==> bits@[j] == header_lc(total, head@)[j] && bits@[j] <= 1,
        decreases 72 - k,
    {
        bits[k] = if k < 8 {
            get_bit(FLCO_TA_HEADER, k)
        } else if k < 16 {
            0
        } else if k < 23 {
            get_bit(total, k - 15)
        } else {
            get_alias_bit(head, k - 23)
        };
        k += 1;
    }
    assert(bits@ =~= header_lc(total, head@));
    bits
}

fn build_block(flco: u8, chunk: &[u8]) -> (bits: [u8; LC_BITS])
    ensures
        bits@ == block_lc(flco, chunk@),
        all_bits(bits@),
{
    let mut bits: [u8; LC_BITS] = [0u8; LC_BITS];
    let mut k: usize = 0;
    while k < LC_BITS
        invariant
            k <= 72,
            forall|j: int| 0 <= j < k ==> bits@[j] == block_lc(flco, chunk@)[j] && bits@[j] <= 1,
        decreases 72 - k,
    {
        bits[k] = if k < 8 {
            get_bit(flco, k)
        } else if k < 16 {
            0
        } else {
            get_alias_bit(chunk, k - 16)
        };
        k += 1;
    }
    assert(bits@ =~= block_lc(flco, chunk@));
    bits
}

/// The nine bytes of a header LC for the first characters of an alias of
/// `total` characters.
pub fn encode_header_bytes(total: u8, head: &str) -> (r: [u8; 9])
    requires
        head.spec_bytes().len() <= HEADER_CHARS,
    ensures
        bits_of(r@) == header_lc(total, head.spec_bytes()),
{
    let bits = build_header(total, head.as_bytes());
    proof {
        law_bits_of_bytes_of(bits@);
    }
    lc_bytes_of(&bits)
}

/// The nine bytes of a block LC.
pub fn encode_block_bytes(flco: u8, chunk: &[u8]) -> (r: [u8; 9])
    requires
        chunk@.len() <= BLOCK_CHARS,
    ensures
        bits_of(r@) == block_lc(flco, chunk@),
{
    let bits = build_block(flco, chunk);
    proof {
        law_bits_of_bytes_of(bits@);
    }
    lc_bytes_of(&bits)
}

/// The 72 bits of nine bytes.
pub fn bytes_to_bits(bytes: &[u8; 9]) -> (bits: [u8; LC_BITS])
    ensures
        bits@ == bits_of(bytes@),
        all_bits(bits@),
{
    let mut bits: [u8; LC_BITS] = [0u8; LC_BITS];
    let mut k: usize = 0;
    while k < LC_BITS
        invariant
            k <= 72,
            forall|j: int| 0 <= j < k ==> bits@[j] == bits_of(bytes@)[j] && bits@[j] <= 1,
        decreases 72 - k,
    {
        bits[k] = get_bit(bytes[k / 8], k % 8);
        k += 1;
    }
    assert(bits@ =~= bits_of(bytes@));
    bits
}

/// The LCs that carry an alias: header, then blocks.  None for text that is
/// empty, too long or not ASCII.
pub fn encode_talker_alias_lcs(text: &str) -> (out: Vec<[u8; LC_BITS]>)
    ensures
        out@.len() == alias_lcs(text@).len(),
        forall|i: int| 0 <= i < out@.len() ==> (#[trigger] out@[i])@ == alias_lcs(text@)[i],
        forall|i: int| 0 <= i < out@.len() ==> all_bits((#[trigger] out@[i])@),
{
    let mut out: Vec<[u8; LC_BITS]> = Vec::new();
    let bytes = text.as_bytes();
    let n: usize = bytes.len();
    if n == 0 || n > MAX_ALIAS_CHARS || !text.is_ascii() {
        return out;
    }
    let split: usize = if n < HEADER_CHARS {
        n
    } else {
        HEADER_CHARS
    };
    out.push(build_header(n as u8, slice_subrange(bytes, 0, split)));
    let mut at: usize = split;
    let mut flco: u8 = FLCO_TA_BLOCK_1;
    while at < n
        invariant
            bytes@ == text.spec_bytes(),
            n == bytes@.len(),
            is_alias(text@),
            split == head_len(n as int),
            out@.len() >= 1,
            at == if split + 8 * (out@.len() - 1) < n {
                split + 8 * (out@.len() - 1)
            } else {
                n as int
            },
            at >= n ==> out@.len() == 1 + blocks_needed(n as int),
            at < n ==> out@.len() <= blocks_needed(n as int),
            flco == FLCO_TA_HEADER + out@.len(),
            forall|i: int| 0 <= i < out@.len() ==> (#[trigger] out@[i])@ == alias_lcs(text@)[i],
            forall|i: int| 0 <= i < out@.len() ==> all_bits((#[trigger] out@[i])@),
        decreases n - at,
    {
        let end: usize = if n - at < BLOCK_CHARS {
            n
        } else {
            at + BLOCK_CHARS
        };
        let block = build_block(flco, slice_subrange(bytes, at, end));
        let ghost before = out@;
        out.push(block);
        proof {
            assert(bytes@.subrange(at as int, end as int) =~= chunk_of(bytes@, before.len() - 1));
            assert forall|i: int| 0 <= i < out@.len() implies (#[trigger] out@[i])@ == alias_lcs(text@)[i]
                && all_bits(out@[i]@) by {
                if i < before.len() {
                    assert(before[i]@ == alias_lcs(text@)[i] && all_bits(before[i]@));
                }
            }
        }
        flco = flco + 1;
        at = end;
    }
    out
}

proof fn lemma_seven_bits(x: u8, y: u8)
    by (bit_vector)
    requires
        x < 128,
        y < 128,
        (x >> 6) & 1 == (y >> 6) & 1,
        (x >> 5) & 1 == (y >> 5) & 1,
        (x >> 4) & 1 == (y >> 4) & 1,
        (x >> 3) & 1 == (y >> 3) & 1,
        (x >> 2) & 1 == (y >> 2) & 1,
        (x >> 1) & 1 == (y >> 1) & 1,
        (x >> 0) & 1 == (y >> 0) & 1,
    ensures
        x == y,
{
}

/// Numbers of seven bits are determined by them.
proof fn lemma_same_bits(x: u8, y: u8)
    requires
        x < 128,
        y < 128,
        forall|m: int| 1 <= m < 8 ==> #[trigger] bit_of(x, m) == bit_of(y, m),
    ensures
        x == y,
{
    assert(bit_of(x, 1) == bit_of(y, 1));
    assert(bit_of(x, 2) == bit_of(y, 2));
    assert(bit_of(x, 3) == bit_of(y, 3));
    assert(bit_of(x, 4) == bit_of(y, 4));
    assert(bit_of(x, 5) == bit_of(y, 5));
    assert(bit_of(x, 6) == bit_of(y, 6));
    assert(bit_of(x, 7) == bit_of(y, 7));
    lemma_seven_bits(x, y);
}

/// Characters are determined by their bits, which begin at `at`.
proof fn lemma_same_chars(x: Seq<u8>, y: Seq<u8>, p: Seq<u8>, q: Seq<u8>, at: int, i: int)
    requires
        0 <= i < x.len(),
        x.len() == y.len(),
        x[i] < 128,
        y[i] < 128,
        p == q,
        forall|k: int| 0 <= k < 7 * x.len() ==> p[at + k] == #[trigger] alias_bit(x, k),
        forall|k: int| 0 <= k < 7 * y.len() ==> q[at + k] == #[trigger] alias_bit(y, k),
    ensures
        x[i] == y[i],
{
    assert forall|m: int| 1 <= m < 8 implies #[trigger] bit_of(x[i], m) == bit_of(y[i], m) by {
        let k = 7 * i + m - 1;
        assert(k / 7 == i && k % 7 == m - 1);
        assert(alias_bit(x, k) == bit_of(x[i], m));
        assert(alias_bit(y, k) == bit_of(y[i], m));
    }
    lemma_same_bits(x[i], y[i]);
}

/// Law: no two aliases are sent alike: the LCs of an alias determine its text.
pub proof fn law_alias_readable(a: Seq<char>, b: Seq<char>)
    requires
        is_alias(a),
        is_alias(b),
        alias_lcs(a) == alias_lcs(b),
    ensures
        a == b,
{
    let x = encode_utf8(a);
    let y = encode_utf8(b);
    lemma_encode_ascii(a);
    lemma_encode_ascii(b);
    let p = alias_lcs(a);
    let q = alias_lcs(b);
    let n = x.len() as int;
    let hx = x.subrange(0, head_len(n));
    assert(p[0] == header_lc(x.len() as u8, hx));
    assert(q[0] == header_lc(y.len() as u8, y.subrange(0, head_len(y.len() as int))));
    assert forall|m: int| 1 <= m < 8 implies #[trigger] bit_of(x.len() as u8, m) == bit_of(
        y.len() as u8,
        m,
    ) by {
        assert(p[0][m + 15] == q[0][m + 15]);
    }
    lemma_same_bits(x.len() as u8, y.len() as u8);
    let hy = y.subrange(0, head_len(n));
    assert forall|i: int| 0 <= i < n implies x[i] == y[i] by {
        assert(x[i] == a[i] as u8 && y[i] == b[i] as u8);
        if i < 7 {
            lemma_same_chars(hx, hy, p[0], q[0], 23, i);
        } else {
            let j = (i - 7) / 8;
            let c = (i - 7) % 8;
            let cx = chunk_of(x, j);
            let cy = chunk_of(y, j);
            assert(j < blocks_needed(n));
            assert(p[1 + j] == block_lc((FLCO_TA_HEADER + 1 + j) as u8, cx));
            assert(q[1 + j] == block_lc((FLCO_TA_HEADER + 1 + j) as u8, cy));
            assert(cx[c] == x[i] && cy[c] == y[i]);
            lemma_same_chars(cx, cy, p[1 + j], q[1 + j], 16, c);
        }
    }
    assert(a =~= b) by {
        assert forall|i: int| 0 <= i < n implies a[i] == b[i] by {
            assert(x[i] == a[i] as u8 && y[i] == b[i] as u8);
        }
    }
}

/// Law: how an alias is sent: ASCII text of 1 to 31 characters takes a header and a
/// block for every eight characters begun after the seventh, any other text nothing;
/// the LCs are numbered 4, 5 and so on in their first byte, behind which a zero byte
/// comes, and the header then gives the length in seven bits.
pub proof fn law_alias_shape(text: Seq<char>, i: int)
    requires
        0 <= i < alias_lcs(text).len(),
    ensures
        is_ascii_chars(text),
        1 <= encode_utf8(text).len() <= 31,
        alias_lcs(text).len() == (if encode_utf8(text).len() <= 7 {
            1int
        } else {
            1 + (encode_utf8(text).len() - 7 + 7) / 8
        }),
        alias_lcs(text)[i].len() == 72,
        ({
            let lc = alias_lcs(text)[i];
            &&& 128 * lc[0] + 64 * lc[1] + 32 * lc[2] + 16 * lc[3] + 8 * lc[4] + 4 * lc[5] + 2 * lc[6]
                + lc[7] == 4 + i
            &&& forall|k: int| 8 <= k < 16 ==> #[trigger] lc[k] == 0
            &&& i == 0 ==> 64 * lc[16] + 32 * lc[17] + 16 * lc[18] + 8 * lc[19] + 4 * lc[20] + 2 * lc[21]
                + lc[22] == encode_utf8(text).len()
        }),
{
    let b = encode_utf8(text);
    let n = b.len() as int;
    let lc = alias_lcs(text)[i];
    if i == 0 {
        lemma_digits(FLCO_TA_HEADER);
        lemma_digits(n as u8);
    } else {
        lemma_digits((FLCO_TA_HEADER + i) as u8);
    }
}

/// Law: every text of 1 to 31 ASCII characters is sent.
pub proof fn law_alias_sent(text: Seq<char>)
    requires
        is_ascii_chars(text),
        1 <= encode_utf8(text).len() <= 31,
    ensures
        alias_lcs(text).len() > 0,
{
}

/// Law: where the characters of an alias are, seven bits each, the most significant
/// first: seven in the header from bit 23 on, eight in each block from bit 16 on, with
/// zeros behind the last.
pub proof fn law_alias_characters(text: Seq<char>, c: int)
    requires
        alias_lcs(text).len() > 0,
        0 <= c < encode_utf8(text).len(),
    ensures
        ({
            let (i, at) = if c < 7 {
                (0int, 23 + 7 * c)
            } else {
                (1 + (c - 7) / 8, 16 + 7 * ((c - 7) % 8))
            };
            let lc = alias_lcs(text)[i];
            &&& i < alias_lcs(text).len()
            &&& encode_utf8(text)[c] % 128 == 64 * lc[at] + 32 * lc[at + 1] + 16 * lc[at + 2] + 8 * lc[at
                + 3] + 4 * lc[at + 4] + 2 * lc[at + 5] + lc[at + 6]
        }),
{
    let b = encode_utf8(text);
    let n = b.len() as int;
    let (i, at, base, k) = if c < 7 {
        (0int, 23 + 7 * c, 23int, c)
    } else {
        (1 + (c - 7) / 8, 16 + 7 * ((c - 7) % 8), 16int, (c - 7) % 8)
    };
    let lc = alias_lcs(text)[i];
    let chars = if c < 7 {
        b.subrange(0, head_len(n))
    } else {
        chunk_of(b, i - 1)
    };
    assert(i < 1 + blocks_needed(n));
    assert(k < chars.len() && chars[k] == b[c]);
    assert forall|m: int| 0 <= m < 7 implies #[trigger] lc[at + m] == bit_of(b[c], 1 + m) by {
        assert(at + m - base == 7 * k + m);
        assert((7 * k + m) / 7 == k && (7 * k + m) % 7 == m);
        assert(alias_bit(chars, 7 * k + m) == bit_of(chars[k], 1 + m));
    }
    assert(lc[at + 0] == bit_of(b[c], 1) && lc[at + 1] == bit_of(b[c], 2) && lc[at + 2] == bit_of(
        b[c],
        3,
    ) && lc[at + 3] == bit_of(b[c], 4) && lc[at + 4] == bit_of(b[c], 5) && lc[at + 5] == bit_of(b[c], 6)
        && lc[at + 6] == bit_of(b[c], 7));
    lemma_digits(b[c]);
}

proof fn lemma_digits(x: u8)
    by (bit_vector)
    ensures
        x == 128 * ((x >> 7) & 1) + 64 * ((x >> 6) & 1) + 32 * ((x >> 5) & 1) + 16 * ((x >> 4) & 1) + 8
            * ((x >> 3) & 1) + 4 * ((x >> 2) & 1) + 2 * ((x >> 1) & 1) + ((x >> 0) & 1),
        x % 128 == 64 * ((x >> 6) & 1) + 32 * ((x >> 5) & 1) + 16 * ((x >> 4) & 1) + 8 * ((x >> 3) & 1)
            + 4 * ((x >> 2) & 1) + 2 * ((x >> 1) & 1) + ((x >> 0) & 1),
{
}

} // verus!
