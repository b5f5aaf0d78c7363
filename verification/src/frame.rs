//! Voice bursts: three AMBE+2 codewords around a sync section.
//!
//! A burst is 132 dibits (pairs of bits): the first codeword (36), half of the
//! second (18), the sync or EMB section (24), the other half of the second
//! (18), the third (36).

use vstd::prelude::*;

use crate::dmrd::DMR_DATA_SIZE;
use crate::types::{AmbeFrame, AMBE_FRAME_SIZE};

verus! {

/// Dibits of a codeword.
pub const DIBITS_PER_CODEWORD: usize = 36;

/// Dibits of the sync section.
pub const SYNC_DIBITS: usize = 24;

/// Dibits of a burst.
pub const BURST_DIBITS: usize = 132;

/// Dibit `i` of a byte, most significant first.
pub open spec fn dibit_of(byte: u8, i: int) -> u8 {
    if i == 0 {
        byte / 64
    } else if i == 1 {
        byte / 16 % 4
    } else if i == 2 {
        byte / 4 % 4
    } else {
        byte % 4
    }
}

/// The dibits of `bytes`.
pub open spec fn dibits_of(bytes: Seq<u8>) -> Seq<u8> {
    Seq::new(4 * bytes.len(), |k: int| dibit_of(bytes[k / 4], k % 4))
}

/// The dibits of codeword `n` of a burst with dibits `d`.
pub open spec fn codeword_dibits(d: Seq<u8>, n: int) -> Seq<u8> {
    if n == 0 {
        d.subrange(0, 36)
    } else if n == 1 {
        d.subrange(36, 54) + d.subrange(78, 96)
    } else {
        d.subrange(96, 132)
    }
}

/// The dibits of the sync section of a burst with dibits `d`.
pub open spec fn sync_dibits(d: Seq<u8>) -> Seq<u8> {
    d.subrange(54, 78)
}

/// The dibits of the burst of three codewords and a sync section.
pub open spec fn burst_dibits(c0: Seq<u8>, c1: Seq<u8>, c2: Seq<u8>, sync: Seq<u8>) -> Seq<u8> {
    dibits_of(c0) + dibits_of(c1).subrange(0, 18) + dibits_of(sync) + dibits_of(c1).subrange(18, 36)
        + dibits_of(c2)
}

/// The four dibits of a byte.
pub fn byte_to_dibits(byte: u8) -> (r: [u8; 4])
    ensures
        r@ == dibits_of(seq![byte]),
{
    let r: [u8; 4] = [byte / 64, byte / 16 % 4, byte / 4 % 4, byte % 4];
    assert(r@ =~= dibits_of(seq![byte]));
    r
}

/// Dibit `k` of `bytes`.
fn get_dibit(bytes: &[u8], k: usize) -> (r: u8)
    requires
        k < 4 * bytes@.len(),
    ensures
        r == dibits_of(bytes@)[k as int],
        r < 4,
{
    let byte: u8 = bytes[k / 4];
    match k % 4 {
        0 => byte / 64,
        1 => byte / 16 % 4,
        2 => byte / 4 % 4,
        _ => byte % 4,
    }
}

/// The byte with the dibits `d[at..at + 4]`, each taken modulo four.
fn byte_of_dibits(d: &[u8], at: usize) -> (r: u8)
    requires
        at + 4 <= d@.len(),
    ensures
        forall|i: int| 0 <= i < 4 ==> #[trigger] dibit_of(r, i) == d@[at + i] % 4,
{
    d[at] % 4 * 64 + d[at + 1] % 4 * 16 + d[at + 2] % 4 * 4 + d[at + 3] % 4
}

/// The 132 dibits of a burst.
pub fn burst_to_dibits(data: &[u8; DMR_DATA_SIZE]) -> (dibits: [u8; BURST_DIBITS])
    ensures
        dibits@ == dibits_of(data@),
{
    let mut dibits: [u8; BURST_DIBITS] = [0u8; BURST_DIBITS];
    let mut k: usize = 0;
    while k < BURST_DIBITS
        invariant
            k <= 132,
            forall|j: int| 0 <= j < k ==> dibits@[j] == dibits_of(data@)[j],
        decreases 132 - k,
    {
        dibits[k] = get_dibit(data, k);
        k += 1;
    }
    assert(dibits@ =~= dibits_of(data@));
    dibits
}

/// The burst with the given dibits.
pub fn dibits_to_bytes(dibits: &[u8; BURST_DIBITS]) -> (data: [u8; DMR_DATA_SIZE])
    requires
        forall|k: int| 0 <= k < 132 ==> dibits@[k] < 4,
    ensures
        dibits_of(data@) == dibits@,
{
    let mut data: [u8; DMR_DATA_SIZE] = [0u8; DMR_DATA_SIZE];
    let mut i: usize = 0;
    while i < DMR_DATA_SIZE
        invariant
            i <= 33,
            forall|j: int, m: int|
                0 <= j < i && 0 <= m < 4 ==> #[trigger] dibit_of(data@[j], m) == dibits@[4 * j + m]
                    % 4,
        decreases 33 - i,
    {
        data[i] = byte_of_dibits(dibits, 4 * i);
        i += 1;
    }
    assert forall|k: int| 0 <= k < 132 implies dibits_of(data@)[k] == dibits@[k] by {
        assert(dibit_of(data@[k / 4], k % 4) == dibits@[4 * (k / 4) + k % 4] % 4);
    }
    assert(dibits_of(data@) =~= dibits@);
    data
}

/// The codeword with the given dibits, each taken modulo four.
pub fn pack_dibits(dibits: &[u8; DIBITS_PER_CODEWORD]) -> (frame: AmbeFrame)
    ensures
        dibits_of(frame@) == dibits@.map_values(|d: u8| (d % 4) as u8),
{
    let mut frame: [u8; AMBE_FRAME_SIZE] = [0u8; AMBE_FRAME_SIZE];
    let mut i: usize = 0;
    while i < AMBE_FRAME_SIZE
        invariant
            i <= 9,
            forall|j: int, m: int|
                0 <= j < i && 0 <= m < 4 ==> #[trigger] dibit_of(frame@[j], m) == dibits@[4 * j + m]
                    % 4,
        decreases 9 - i,
    {
        frame[i] = byte_of_dibits(dibits, 4 * i);
        i += 1;
    }
    assert forall|k: int| 0 <= k < 36 implies dibits_of(frame@)[k] == dibits@[k] % 4 by {
        assert(dibit_of(frame@[k / 4], k % 4) == dibits@[4 * (k / 4) + k % 4] % 4);
    }
    assert(dibits_of(frame@) =~= dibits@.map_values(|d: u8| (d % 4) as u8));
    frame
}

/// The 36 dibits of a codeword.
pub fn unpack_dibits(frame: &AmbeFrame) -> (dibits: [u8; DIBITS_PER_CODEWORD])
    ensures
        dibits@ == dibits_of(frame@),
{
    let mut dibits: [u8; DIBITS_PER_CODEWORD] = [0u8; DIBITS_PER_CODEWORD];
    let mut k: usize = 0;
    while k < DIBITS_PER_CODEWORD
        invariant
            k <= 36,
            forall|j: int| 0 <= j < k ==> dibits@[j] == dibits_of(frame@)[j],
        decreases 36 - k,
    {
        dibits[k] = get_dibit(frame, k);
        k += 1;
    }
    assert(dibits@ =~= dibits_of(frame@));
    dibits
}

/// The codeword of a burst whose first 18 dibits start at `lo` and whose last
/// 18 start at `hi`.
#[verifier::spinoff_prover]
fn codeword_at(data: &[u8; DMR_DATA_SIZE], lo: usize, hi: usize) -> (frame: AmbeFrame)
    requires
        lo + 18 <= 132,
        hi + 18 <= 132,
    ensures
        dibits_of(frame@) == dibits_of(data@).subrange(lo as int, lo + 18) + dibits_of(
            data@,
        ).subrange(hi as int, hi + 18),
{
    let ghost want = dibits_of(data@).subrange(lo as int, lo + 18) + dibits_of(data@).subrange(
        hi as int,
        hi + 18,
    );
    let mut cw: [u8; DIBITS_PER_CODEWORD] = [0u8; DIBITS_PER_CODEWORD];
    let mut k: usize = 0;
    while k < DIBITS_PER_CODEWORD
        invariant
            k <= 36,
            lo + 18 <= 132,
            hi + 18 <= 132,
            want == dibits_of(data@).subrange(lo as int, lo + 18) + dibits_of(data@).subrange(
                hi as int,
                hi + 18,
            ),
            forall|j: int| 0 <= j < k ==> cw@[j] == want[j] && cw@[j] < 4,
        decreases 36 - k,
    {
        let at: usize = if k < 18 {
            lo + k
        } else {
            hi + (k - 18)
        };
        let dibit: u8 = get_dibit(data, at);
        assert(want[k as int] == dibits_of(data@)[at as int]);
        let ghost before = cw@;
        cw[k] = dibit;
        assert forall|j: int| 0 <= j < k + 1 implies cw@[j] == want[j] && cw@[j] < 4 by {
            if j < k {
                assert(cw@[j] == before[j]);
            }
        }
        k += 1;
    }
    let frame = pack_dibits(&cw);
    assert(dibits_of(frame@) =~= want);
    frame
}

/// The three codewords of a burst.
pub fn extract_ambe(data: &[u8; DMR_DATA_SIZE]) -> (r: [AmbeFrame; 3])
    ensures
        forall|n: int|
            0 <= n < 3 ==> dibits_of((#[trigger] r@[n])@) == codeword_dibits(dibits_of(data@), n),
{
    let c0 = codeword_at(data, 0, 18);
    let c1 = codeword_at(data, 36, 78);
    let c2 = codeword_at(data, 96, 114);
    let ghost d = dibits_of(data@);
    assert(d.subrange(0, 18) + d.subrange(18, 36) =~= d.subrange(0, 36));
    assert(d.subrange(96, 114) + d.subrange(114, 132) =~= d.subrange(96, 132));
    [c0, c1, c2]
}

/// The six bytes of the sync section of a burst.
pub fn extract_sync_section(data: &[u8; DMR_DATA_SIZE]) -> (sync: [u8; 6])
    ensures
        dibits_of(sync@) == sync_dibits(dibits_of(data@)),
{
    let dibits = burst_to_dibits(data);
    let mut sync: [u8; 6] = [0u8; 6];
    let mut i: usize = 0;
    while i < 6
        invariant
            i <= 6,
            dibits@ == dibits_of(data@),
            forall|j: int, m: int|
                0 <= j < i && 0 <= m < 4 ==> #[trigger] dibit_of(sync@[j], m) == dibits@[54 + 4 * j
                    + m] % 4,
        decreases 6 - i,
    {
        sync[i] = byte_of_dibits(&dibits, 54 + 4 * i);
        i += 1;
    }
    assert forall|k: int| 0 <= k < 24 implies dibits_of(sync@)[k] == sync_dibits(dibits@)[k] by {
        assert(dibit_of(sync@[k / 4], k % 4) == dibits@[54 + 4 * (k / 4) + k % 4] % 4);
        assert(dibits@[54 + k] == dibit_of(data@[(54 + k) / 4], (54 + k) % 4));
    }
    assert(dibits_of(sync@) =~= sync_dibits(dibits@));
    sync
}

/// The burst of three codewords and a sync section.
pub fn assemble_burst(codewords: &[AmbeFrame; 3], sync: &[u8; 6]) -> (r: [u8; DMR_DATA_SIZE])
    ensures
        dibits_of(r@) == burst_dibits(codewords@[0]@, codewords@[1]@, codewords@[2]@, sync@),
{
    let c0 = unpack_dibits(&codewords[0]);
    let c1 = unpack_dibits(&codewords[1]);
    let c2 = unpack_dibits(&codewords[2]);
    let ghost want = burst_dibits(codewords@[0]@, codewords@[1]@, codewords@[2]@, sync@);
    let mut dibits: [u8; BURST_DIBITS] = [0u8; BURST_DIBITS];
    let mut k: usize = 0;
    while k < BURST_DIBITS
        invariant
            k <= 132,
            c0@ == dibits_of(codewords@[0]@),
            c1@ == dibits_of(codewords@[1]@),
            c2@ == dibits_of(codewords@[2]@),
            want == burst_dibits(codewords@[0]@, codewords@[1]@, codewords@[2]@, sync@),
            forall|j: int| 0 <= j < k ==> dibits@[j] == want[j],
        decreases 132 - k,
    {
        dibits[k] = if k < 36 {
            c0[k]
        } else if k < 54 {
            c1[k - 36]
        } else if k < 78 {
            get_dibit(sync, k - 54)
        } else if k < 96 {
            c1[k - 60]
        } else {
            c2[k - 96]
        };
        assert(dibits@[k as int] == want[k as int]);
        k += 1;
    }
    assert(dibits@ =~= want);
    assert forall|j: int| 0 <= j < 132 implies dibits@[j] < 4 by {
        if j < 36 {
        } else if j < 54 {
            assert(want[j] == dibits_of(codewords@[1]@)[j - 36]);
        } else if j < 78 {
            assert(want[j] == dibits_of(sync@)[j - 54]);
        } else if j < 96 {
            assert(want[j] == dibits_of(codewords@[1]@)[j - 60]);
        } else {
            assert(want[j] == dibits_of(codewords@[2]@)[j - 96]);
        }
    }
    dibits_to_bytes(&dibits)
}

/// Law: bytes are determined by their dibits.
#[verifier::spinoff_prover]
pub proof fn law_dibits_injective(a: Seq<u8>, b: Seq<u8>)
    requires
        a.len() == b.len(),
        dibits_of(a) == dibits_of(b),
    ensures
        a == b,
{
    assert forall|i: int| 0 <= i < a.len() implies a[i] == b[i] by {
        assert forall|m: int| 0 <= m < 4 implies #[trigger] dibit_of(a[i], m) == dibit_of(b[i], m) by {
            let k = 4 * i + m;
            assert(k / 4 == i && k % 4 == m);
            assert(dibits_of(a)[k] == dibit_of(a[k / 4], k % 4));
            assert(dibits_of(b)[k] == dibit_of(b[k / 4], k % 4));
        }
        assert(dibit_of(a[i], 0) == dibit_of(b[i], 0));
        assert(dibit_of(a[i], 1) == dibit_of(b[i], 1));
        assert(dibit_of(a[i], 2) == dibit_of(b[i], 2));
        assert(dibit_of(a[i], 3) == dibit_of(b[i], 3));
    }
    assert(a =~= b);
}

/// Law: taking a burst apart gives back the codewords that it was put together
/// from.
pub proof fn law_codewords_extracted(
    codewords: [AmbeFrame; 3],
    sync: [u8; 6],
    burst: [u8; DMR_DATA_SIZE],
    read: [AmbeFrame; 3],
)
    requires
        dibits_of(burst@) == burst_dibits(codewords@[0]@, codewords@[1]@, codewords@[2]@, sync@),
        forall|n: int|
            0 <= n < 3 ==> dibits_of((#[trigger] read@[n])@) == codeword_dibits(
                dibits_of(burst@),
                n,
            ),
    ensures
        forall|n: int| 0 <= n < 3 ==> (#[trigger] read@[n])@ == codewords@[n]@,
{
    let d = dibits_of(burst@);
    assert(codeword_dibits(d, 0) =~= dibits_of(codewords@[0]@));
    assert(codeword_dibits(d, 1) =~= dibits_of(codewords@[1]@));
    assert(codeword_dibits(d, 2) =~= dibits_of(codewords@[2]@));
    assert forall|n: int| 0 <= n < 3 implies (#[trigger] read@[n])@ == codewords@[n]@ by {
        law_dibits_injective(read@[n]@, codewords@[n]@);
    }
}

/// Law: taking a burst apart gives back the sync section that it was put
/// together from.
pub proof fn law_sync_extracted(
    codewords: [AmbeFrame; 3],
    sync: [u8; 6],
    burst: [u8; DMR_DATA_SIZE],
    read: [u8; 6],
)
    requires
        dibits_of(burst@) == burst_dibits(codewords@[0]@, codewords@[1]@, codewords@[2]@, sync@),
        dibits_of(read@) == sync_dibits(dibits_of(burst@)),
    ensures
        read@ == sync@,
{
    assert(sync_dibits(dibits_of(burst@)) =~= dibits_of(sync@));
    law_dibits_injective(read@, sync@);
}

/// Law: the codewords do not depend on the sync section.
pub proof fn law_extract_ignores_sync(d: Seq<u8>, e: Seq<u8>, n: int)
    requires
        d.len() == 132,
        e.len() == 132,
        forall|k: int| 0 <= k < 132 && !(54 <= k < 78) ==> d[k] == e[k],
        0 <= n < 3,
    ensures
        codeword_dibits(d, n) == codeword_dibits(e, n),
{
    assert(codeword_dibits(d, n) =~= codeword_dibits(e, n));
}

/// Law: four dibits are the eight bits of a byte, two at a time, the most
/// significant first.
pub proof fn law_dibits_spell(bytes: Seq<u8>, i: int)
    requires
        0 <= i < bytes.len(),
    ensures
        dibits_of(bytes).len() == 4 * bytes.len(),
        dibits_of(bytes)[4 * i] < 4,
        dibits_of(bytes)[4 * i + 1] < 4,
        dibits_of(bytes)[4 * i + 2] < 4,
        dibits_of(bytes)[4 * i + 3] < 4,
        bytes[i] == 64 * dibits_of(bytes)[4 * i] + 16 * dibits_of(bytes)[4 * i + 1] + 4 * dibits_of(
            bytes,
        )[4 * i + 2] + dibits_of(bytes)[4 * i + 3],
{
    lemma_four_dibits(bytes, i);
}

/// The dibits of byte `i`.
proof fn lemma_four_dibits(bytes: Seq<u8>, i: int)
    requires
        0 <= i < bytes.len(),
    ensures
        dibits_of(bytes)[4 * i] == dibit_of(bytes[i], 0),
        dibits_of(bytes)[4 * i + 1] == dibit_of(bytes[i], 1),
        dibits_of(bytes)[4 * i + 2] == dibit_of(bytes[i], 2),
        dibits_of(bytes)[4 * i + 3] == dibit_of(bytes[i], 3),
{
    assert(4 * i / 4 == i && 4 * i % 4 == 0);
    assert((4 * i + 1) / 4 == i && (4 * i + 1) % 4 == 1);
    assert((4 * i + 2) / 4 == i && (4 * i + 2) % 4 == 2);
    assert((4 * i + 3) / 4 == i && (4 * i + 3) % 4 == 3);
}

/// Bytes with the same dibits in two places are the same there.
proof fn lemma_same_byte(a: Seq<u8>, i: int, b: Seq<u8>, j: int)
    requires
        0 <= i < a.len(),
        0 <= j < b.len(),
        forall|m: int| 0 <= m < 4 ==> dibits_of(a)[4 * i + m] == #[trigger] dibits_of(b)[4 * j + m],
    ensures
        a[i] == b[j],
{
    lemma_four_dibits(a, i);
    lemma_four_dibits(b, j);
    assert(dibits_of(a)[4 * i + 0] == dibits_of(b)[4 * j + 0]);
    assert(dibits_of(a)[4 * i + 1] == dibits_of(b)[4 * j + 1]);
    assert(dibits_of(a)[4 * i + 2] == dibits_of(b)[4 * j + 2]);
    assert(dibits_of(a)[4 * i + 3] == dibits_of(b)[4 * j + 3]);
}

/// A byte whose first two dibits are half `p` of one byte and whose last two are
/// half `q` of another.
proof fn lemma_two_halves(a: Seq<u8>, i: int, b: Seq<u8>, j: int, p: int, c: Seq<u8>, k: int, q: int)
    requires
        0 <= i < a.len(),
        0 <= j < b.len(),
        0 <= k < c.len(),
        p == 0 || p == 1,
        q == 0 || q == 1,
        dibits_of(a)[4 * i] == dibits_of(b)[4 * j + 2 * p],
        dibits_of(a)[4 * i + 1] == dibits_of(b)[4 * j + 2 * p + 1],
        dibits_of(a)[4 * i + 2] == dibits_of(c)[4 * k + 2 * q],
        dibits_of(a)[4 * i + 3] == dibits_of(c)[4 * k + 2 * q + 1],
    ensures
        a[i] == (if p == 0 {
            b[j] / 16
        } else {
            b[j] % 16
        }) * 16 + (if q == 0 {
            c[k] / 16
        } else {
            c[k] % 16
        }),
{
    lemma_four_dibits(a, i);
    lemma_four_dibits(b, j);
    lemma_four_dibits(c, k);
    lemma_halves(a[i]);
    lemma_halves(b[j]);
    lemma_halves(c[k]);
}

proof fn lemma_halves(x: u8)
    ensures
        x / 16 == 4 * dibit_of(x, 0) + dibit_of(x, 1),
        x % 16 == 4 * dibit_of(x, 2) + dibit_of(x, 3),
        x == x / 16 * 16 + x % 16,
{
}

/// Where the dibits of a burst come from.
proof fn lemma_burst_dibit(c0: Seq<u8>, c1: Seq<u8>, c2: Seq<u8>, sync: Seq<u8>, k: int)
    requires
        c0.len() == 9,
        c1.len() == 9,
        c2.len() == 9,
        sync.len() == 6,
        0 <= k < 132,
    ensures
        burst_dibits(c0, c1, c2, sync)[k] == (if k < 36 {
            dibits_of(c0)[k]
        } else if k < 54 {
            dibits_of(c1)[k - 36]
        } else if k < 78 {
            dibits_of(sync)[k - 54]
        } else if k < 96 {
            dibits_of(c1)[k - 60]
        } else {
            dibits_of(c2)[k - 96]
        }),
{
}

/// Law: a burst that is put together is the nine bytes of the first codeword,
/// four bytes and a half of the second, the six of the sync section, the other
/// four and a half, and the nine bytes of the third.
#[verifier::spinoff_prover]
pub proof fn law_burst_layout(codewords: [AmbeFrame; 3], sync: [u8; 6], burst: [u8; DMR_DATA_SIZE])
    requires
        dibits_of(burst@) == burst_dibits(codewords@[0]@, codewords@[1]@, codewords@[2]@, sync@),
    ensures
        forall|i: int| 0 <= i < 9 ==> #[trigger] burst@[i] == codewords@[0]@[i],
        forall|i: int| 9 <= i < 13 ==> #[trigger] burst@[i] == codewords@[1]@[i - 9],
        burst@[13] == codewords@[1]@[4] / 16 * 16 + sync@[0] / 16,
        forall|i: int|
            14 <= i < 19 ==> #[trigger] burst@[i] == sync@[i - 14] % 16 * 16 + sync@[i - 13] / 16,
        burst@[19] == sync@[5] % 16 * 16 + codewords@[1]@[4] % 16,
        forall|i: int| 20 <= i < 24 ==> #[trigger] burst@[i] == codewords@[1]@[i - 15],
        forall|i: int| 24 <= i < 33 ==> #[trigger] burst@[i] == codewords@[2]@[i - 24],
{
    let d = dibits_of(burst@);
    let (c0, c1, c2) = (codewords@[0]@, codewords@[1]@, codewords@[2]@);
    let s = sync@;
    assert forall|i: int| 0 <= i < 9 implies #[trigger] burst@[i] == c0[i] by {
        assert forall|m: int| 0 <= m < 4 implies d[4 * i + m] == #[trigger] dibits_of(c0)[4 * i + m] by {
            lemma_burst_dibit(c0, c1, c2, s, 4 * i + m);
        }
        lemma_same_byte(burst@, i, c0, i);
    }
    assert forall|i: int| 9 <= i < 13 implies #[trigger] burst@[i] == c1[i - 9] by {
        assert forall|m: int| 0 <= m < 4 implies d[4 * i + m] == #[trigger] dibits_of(c1)[4 * (i - 9)
            + m] by {
            lemma_burst_dibit(c0, c1, c2, s, 4 * i + m);
        }
        lemma_same_byte(burst@, i, c1, i - 9);
    }
    lemma_burst_dibit(c0, c1, c2, s, 52);
    lemma_burst_dibit(c0, c1, c2, s, 53);
    lemma_burst_dibit(c0, c1, c2, s, 54);
    lemma_burst_dibit(c0, c1, c2, s, 55);
    lemma_two_halves(burst@, 13, c1, 4, 0, s, 0, 0);
    assert forall|i: int| 14 <= i < 19 implies #[trigger] burst@[i] == s[i - 14] % 16 * 16 + s[i - 13]
        / 16 by {
        lemma_burst_dibit(c0, c1, c2, s, 4 * i);
        lemma_burst_dibit(c0, c1, c2, s, 4 * i + 1);
        lemma_burst_dibit(c0, c1, c2, s, 4 * i + 2);
        lemma_burst_dibit(c0, c1, c2, s, 4 * i + 3);
        lemma_two_halves(burst@, i, s, i - 14, 1, s, i - 13, 0);
    }
    lemma_burst_dibit(c0, c1, c2, s, 76);
    lemma_burst_dibit(c0, c1, c2, s, 77);
    lemma_burst_dibit(c0, c1, c2, s, 78);
    lemma_burst_dibit(c0, c1, c2, s, 79);
    lemma_two_halves(burst@, 19, s, 5, 1, c1, 4, 1);
    assert forall|i: int| 20 <= i < 24 implies #[trigger] burst@[i] == c1[i - 15] by {
        assert forall|m: int| 0 <= m < 4 implies d[4 * i + m] == #[trigger] dibits_of(c1)[4 * (i - 15)
            + m] by {
            lemma_burst_dibit(c0, c1, c2, s, 4 * i + m);
        }
        lemma_same_byte(burst@, i, c1, i - 15);
    }
    assert forall|i: int| 24 <= i < 33 implies #[trigger] burst@[i] == c2[i - 24] by {
        assert forall|m: int| 0 <= m < 4 implies d[4 * i + m] == #[trigger] dibits_of(c2)[4 * (i - 24)
            + m] by {
            lemma_burst_dibit(c0, c1, c2, s, 4 * i + m);
        }
        lemma_same_byte(burst@, i, c2, i - 24);
    }
}

/// Law: the codewords that are taken out of a burst are its first nine bytes,
/// the four bytes and a half on either side of the sync section, and its last
/// nine bytes.
#[verifier::spinoff_prover]
pub proof fn law_codeword_places(data: [u8; DMR_DATA_SIZE], read: [AmbeFrame; 3])
    requires
        forall|n: int|
            0 <= n < 3 ==> dibits_of((#[trigger] read@[n])@) == codeword_dibits(dibits_of(data@), n),
    ensures
        forall|i: int| 0 <= i < 9 ==> #[trigger] read@[0]@[i] == data@[i],
        forall|i: int| 0 <= i < 4 ==> #[trigger] read@[1]@[i] == data@[9 + i],
        read@[1]@[4] == data@[13] / 16 * 16 + data@[19] % 16,
        forall|i: int| 5 <= i < 9 ==> #[trigger] read@[1]@[i] == data@[15 + i],
        forall|i: int| 0 <= i < 9 ==> #[trigger] read@[2]@[i] == data@[24 + i],
{
    let d = dibits_of(data@);
    let (r0, r1, r2) = (read@[0]@, read@[1]@, read@[2]@);
    assert(dibits_of(r0) == codeword_dibits(d, 0));
    assert(dibits_of(r1) == codeword_dibits(d, 1));
    assert(dibits_of(r2) == codeword_dibits(d, 2));
    assert forall|i: int| 0 <= i < 9 implies #[trigger] r0[i] == data@[i] by {
        assert forall|m: int| 0 <= m < 4 implies dibits_of(r0)[4 * i + m] == #[trigger] d[4 * i + m] by {}
        lemma_same_byte(r0, i, data@, i);
    }
    assert forall|i: int| 0 <= i < 4 implies #[trigger] r1[i] == data@[9 + i] by {
        assert forall|m: int| 0 <= m < 4 implies dibits_of(r1)[4 * i + m] == #[trigger] d[4 * (9 + i)
            + m] by {}
        lemma_same_byte(r1, i, data@, 9 + i);
    }
    lemma_two_halves(r1, 4, data@, 13, 0, data@, 19, 1);
    assert forall|i: int| 5 <= i < 9 implies #[trigger] r1[i] == data@[15 + i] by {
        assert forall|m: int| 0 <= m < 4 implies dibits_of(r1)[4 * i + m] == #[trigger] d[4 * (15 + i)
            + m] by {}
        lemma_same_byte(r1, i, data@, 15 + i);
    }
    assert forall|i: int| 0 <= i < 9 implies #[trigger] r2[i] == data@[24 + i] by {
        assert forall|m: int| 0 <= m < 4 implies dibits_of(r2)[4 * i + m] == #[trigger] d[4 * (24 + i)
            + m] by {}
        lemma_same_byte(r2, i, data@, 24 + i);
    }
}

/// Law: the sync section that is taken out of a burst is the 48 bits in its
/// middle, half a byte past byte 13 to half a byte into byte 19.
#[verifier::spinoff_prover]
pub proof fn law_sync_place(data: [u8; DMR_DATA_SIZE], read: [u8; 6])
    requires
        dibits_of(read@) == sync_dibits(dibits_of(data@)),
    ensures
        forall|i: int|
            0 <= i < 6 ==> #[trigger] read@[i] == data@[13 + i] % 16 * 16 + data@[14 + i] / 16,
{
    let d = dibits_of(data@);
    assert forall|i: int| 0 <= i < 6 implies #[trigger] read@[i] == data@[13 + i] % 16 * 16 + data@[14
        + i] / 16 by {
        let e = dibits_of(read@);
        assert(e[4 * i] == d[4 * (13 + i) + 2]);
        assert(e[4 * i + 1] == d[4 * (13 + i) + 3]);
        assert(e[4 * i + 2] == d[4 * (14 + i)]);
        assert(e[4 * i + 3] == d[4 * (14 + i) + 1]);
        lemma_two_halves(read@, i, data@, 13 + i, 1, data@, 14 + i, 0);
    }
}

} // verus!
