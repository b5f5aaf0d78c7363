//! Reed-Solomon RS(12,9) checksum of a Full LC.
//!
//! Symbols are elements of GF(256) with the field polynomial
//! x^8 + x^4 + x^3 + x^2 + 1 and generator alpha = 2.  A codeword is nine data
//! symbols and three parity symbols, highest power first, that as a polynomial
//! vanishes at alpha, alpha^2 and alpha^3.  On the air the parity is masked
//! with a constant that tells headers from terminators.

use vstd::prelude::*;

verus! {

/// Parity mask of a voice LC header.
pub const LC_HEADER_MASK: [u8; 3] = [0x96, 0x96, 0x96];

/// Parity mask of a voice LC terminator.
pub const LC_TERMINATOR_MASK: [u8; 3] = [0x99, 0x99, 0x99];

/// `a` times alpha.
pub open spec fn times_alpha(a: u8) -> u8 {
    if a & 0x80 != 0 {
        (a << 1) ^ 0x1D
    } else {
        a << 1
    }
}

/// `a` times alpha to the power `n`.
pub open spec fn shifted(a: u8, n: nat) -> u8
    decreases n,
{
    if n == 0 {
        a
    } else {
        times_alpha(shifted(a, (n - 1) as nat))
    }
}

/// The polynomial with coefficients `w`, highest power first, at alpha to the
/// power `j`.
pub open spec fn value_at(w: Seq<u8>, j: nat) -> u8
    decreases w.len(),
{
    if w.len() == 0 {
        0
    } else {
        shifted(value_at(w.drop_last(), j), j) ^ w.last()
    }
}

/// The values at the three roots of the code.
pub open spec fn syndromes(w: Seq<u8>) -> Seq<u8> {
    seq![value_at(w, 1), value_at(w, 2), value_at(w, 3)]
}

/// `w` is a codeword.
pub open spec fn is_codeword(w: Seq<u8>) -> bool {
    w.len() == 12 && value_at(w, 1) == 0 && value_at(w, 2) == 0 && value_at(w, 3) == 0
}

/// `v` is `w` but for at most one symbol.
pub open spec fn one_symbol_apart(w: Seq<u8>, v: Seq<u8>) -> bool {
    exists|k: int| 0 <= k < w.len() && v == #[trigger] w.update(k, v[k])
}

/// The codeword that nine data symbols and three masked parity symbols stand for.
pub open spec fn unmasked(data: Seq<u8>, parity: Seq<u8>, mask: Seq<u8>) -> Seq<u8> {
    data + seq![parity[0] ^ mask[0], parity[1] ^ mask[1], parity[2] ^ mask[2]]
}

// ---------------------------------------------------------------------------
// Arithmetic
// ---------------------------------------------------------------------------

proof fn lemma_times_alpha(a: u8, b: u8)
    by (bit_vector)
    ensures
        times_alpha(a ^ b) == times_alpha(a) ^ times_alpha(b),
        times_alpha(0) == 0,
        times_alpha(a) == times_alpha(b) ==> a == b,
{
}

proof fn lemma_xor(a: u8, b: u8, c: u8, d: u8)
    by (bit_vector)
    ensures
        a ^ b == b ^ a,
        (a ^ b) ^ c == a ^ (b ^ c),
        (a ^ b) ^ c == (a ^ c) ^ b,
        a ^ a == 0,
        a ^ 0 == a,
        0 ^ a == a,
        a ^ b == 0 ==> a == b,
        (a ^ b) ^ b == a,
        a ^ (a ^ b) == b,
        (a ^ b) ^ (c ^ d) == (a ^ c) ^ (b ^ d),
{
}

proof fn lemma_shifted_xor(a: u8, b: u8, n: nat)
    ensures
        shifted(a ^ b, n) == shifted(a, n) ^ shifted(b, n),
        shifted(0, n) == 0,
    decreases n,
{
    if n > 0 {
        lemma_shifted_xor(a, b, (n - 1) as nat);
        lemma_times_alpha(shifted(a, (n - 1) as nat), shifted(b, (n - 1) as nat));
    }
}

proof fn lemma_shifted_add(a: u8, m: nat, n: nat)
    ensures
        shifted(shifted(a, m), n) == shifted(a, m + n),
    decreases n,
{
    if n > 0 {
        lemma_shifted_add(a, m, (n - 1) as nat);
    }
}

proof fn lemma_shifted_injective(a: u8, b: u8, n: nat)
    requires
        shifted(a, n) == shifted(b, n),
    ensures
        a == b,
    decreases n,
{
    if n > 0 {
        lemma_times_alpha(shifted(a, (n - 1) as nat), shifted(b, (n - 1) as nat));
        lemma_shifted_injective(a, b, (n - 1) as nat);
    }
}

/// Adding `e` to symbol `k` adds `e` times the power of that place.
proof fn lemma_value_update(w: Seq<u8>, k: int, e: u8, j: nat)
    requires
        0 <= k < w.len(),
    ensures
        value_at(w.update(k, w[k] ^ e), j) == value_at(w, j) ^ shifted(
            e,
            j * (w.len() - 1 - k) as nat,
        ),
    decreases w.len(),
{
    let v = w.update(k, w[k] ^ e);
    let n = (w.len() - 1) as nat;
    if k == n {
        assert(v.drop_last() =~= w.drop_last());
        lemma_xor(shifted(value_at(w.drop_last(), j), j), w[k], e, 0);
        assert(j * 0 == 0);
    } else {
        assert(v.drop_last() =~= w.drop_last().update(k, w[k] ^ e));
        lemma_value_update(w.drop_last(), k, e, j);
        let below = value_at(w.drop_last(), j);
        let m = j * (n - 1 - k) as nat;
        lemma_shifted_xor(below, shifted(e, m), j);
        lemma_shifted_add(e, m, j);
        assert(m + j == j * (n - k)) by (nonlinear_arith)
            requires
                m == j * (n - 1 - k),
        ;
        lemma_xor(shifted(below, j), shifted(e, m + j), w.last(), 0);
    }
}

/// The polynomial of a sum is the sum of the polynomials.
proof fn lemma_value_xor(u: Seq<u8>, v: Seq<u8>, d: Seq<u8>, j: nat)
    requires
        u.len() == v.len() == d.len(),
        forall|i: int| 0 <= i < u.len() ==> d[i] == u[i] ^ v[i],
    ensures
        value_at(d, j) == value_at(u, j) ^ value_at(v, j),
    decreases u.len(),
{
    if u.len() > 0 {
        lemma_value_xor(u.drop_last(), v.drop_last(), d.drop_last(), j);
        let a = value_at(u.drop_last(), j);
        let b = value_at(v.drop_last(), j);
        lemma_shifted_xor(a, b, j);
        lemma_xor(shifted(a, j), shifted(b, j), u.last(), v.last());
    } else {
        lemma_xor(0, 0, 0, 0);
    }
}

// ---------------------------------------------------------------------------
// Encoder
// ---------------------------------------------------------------------------

/// The remainder register `b2 x^2 + b1 x + b0` at alpha to the power `j`.
spec fn register_at(b2: u8, b1: u8, b0: u8, j: nat) -> u8 {
    shifted(b2, 2 * j) ^ shifted(b1, j) ^ b0
}

/// The generator polynomial x^3 + 14 x^2 + 56 x + 64 vanishes at its roots.
proof fn lemma_generator_roots(f3: u8, f4: u8, f5: u8, f6: u8, f7: u8, f8: u8, f9: u8)
    by (bit_vector)
    ensures
        ((f3 ^ f4) ^ f5) ^ ((f4 ^ f5) ^ f6) ^ f6 == f3,
        ((f5 ^ f6) ^ f7) ^ ((f5 ^ f6) ^ f7) ^ f6 == f6,
        ((f7 ^ f8) ^ f9) ^ ((f6 ^ f7) ^ f8) ^ f6 == f9,
{
}

proof fn lemma_regroup(a: u8, b: u8, x: u8, y: u8, z: u8, f: u8)
    by (bit_vector)
    requires
        (x ^ y) ^ z == f,
    ensures
        ((a ^ x) ^ (b ^ y)) ^ z == (a ^ b) ^ f,
{
}

/// `f` times 14, 56 and 64, each times a power of alpha.
proof fn lemma_shifted_taps(f: u8, n: nat)
    ensures
        shifted((shifted(f, 1) ^ shifted(f, 2)) ^ shifted(f, 3), n) == (shifted(f, n + 1) ^ shifted(
            f,
            n + 2,
        )) ^ shifted(f, n + 3),
        shifted((shifted(f, 3) ^ shifted(f, 4)) ^ shifted(f, 5), n) == (shifted(f, n + 3) ^ shifted(
            f,
            n + 4,
        )) ^ shifted(f, n + 5),
{
    lemma_shifted_xor(shifted(f, 1) ^ shifted(f, 2), shifted(f, 3), n);
    lemma_shifted_xor(shifted(f, 1), shifted(f, 2), n);
    lemma_shifted_xor(shifted(f, 3) ^ shifted(f, 4), shifted(f, 5), n);
    lemma_shifted_xor(shifted(f, 3), shifted(f, 4), n);
    lemma_shifted_add(f, 1, n);
    lemma_shifted_add(f, 2, n);
    lemma_shifted_add(f, 3, n);
    lemma_shifted_add(f, 4, n);
    lemma_shifted_add(f, 5, n);
}

/// One step of the division by the generator polynomial.
proof fn lemma_register_step(b2: u8, b1: u8, b0: u8, d: u8, j: nat)
    requires
        1 <= j <= 3,
    ensures
        ({
            let f = d ^ b2;
            register_at(
                b1 ^ ((shifted(f, 1) ^ shifted(f, 2)) ^ shifted(f, 3)),
                b0 ^ ((shifted(f, 3) ^ shifted(f, 4)) ^ shifted(f, 5)),
                shifted(f, 6),
                j,
            ) == shifted(register_at(b2, b1, b0, j), j) ^ shifted(d, 3 * j)
        }),
{
    let f = d ^ b2;
    let t14 = (shifted(f, 1) ^ shifted(f, 2)) ^ shifted(f, 3);
    let t56 = (shifted(f, 3) ^ shifted(f, 4)) ^ shifted(f, 5);
    let t64 = shifted(f, 6);
    lemma_shifted_taps(f, 2 * j);
    lemma_shifted_taps(f, j);
    lemma_generator_roots(
        shifted(f, 3),
        shifted(f, 4),
        shifted(f, 5),
        shifted(f, 6),
        shifted(f, 7),
        shifted(f, 8),
        shifted(f, 9),
    );
    assert((shifted(t14, 2 * j) ^ shifted(t56, j)) ^ t64 == shifted(f, 3 * j)) by {
        if j == 1 {
        } else if j == 2 {
        } else {
            assert(j == 3);
        }
    }
    lemma_shifted_xor(b1, t14, 2 * j);
    lemma_shifted_xor(b0, t56, j);
    lemma_regroup(
        shifted(b1, 2 * j),
        shifted(b0, j),
        shifted(t14, 2 * j),
        shifted(t56, j),
        t64,
        shifted(f, 3 * j),
    );
    lemma_shifted_xor(d, b2, 3 * j);
    lemma_shifted_xor(shifted(b2, 2 * j) ^ shifted(b1, j), b0, j);
    lemma_shifted_xor(shifted(b2, 2 * j), shifted(b1, j), j);
    lemma_shifted_add(b2, 2 * j, j);
    lemma_shifted_add(b1, j, j);
    assert(shifted(b2, 2 * j + j) == shifted(b2, 3 * j));
    assert(shifted(b1, j + j) == shifted(b1, 2 * j));
    lemma_four(shifted(b1, 2 * j), shifted(b0, j), shifted(d, 3 * j), shifted(b2, 3 * j));
}

proof fn lemma_four(b1: u8, b0: u8, d: u8, b2: u8)
    by (bit_vector)
    ensures
        (b1 ^ b0) ^ (d ^ b2) == ((b2 ^ b1) ^ b0) ^ d,
{
}

/// Appending the remainder makes the polynomial vanish.
proof fn lemma_appended_remainder(data: Seq<u8>, w: Seq<u8>, j: nat)
    requires
        w.len() == data.len() + 3,
        w.subrange(0, data.len() as int) == data,
        register_at(w[w.len() - 3], w[w.len() - 2], w[w.len() - 1], j) == shifted(
            value_at(data, j),
            3 * j,
        ),
    ensures
        value_at(w, j) == 0,
{
    let n = data.len() as int;
    let w2 = w.drop_last();
    let w3 = w2.drop_last();
    assert(w3.drop_last() =~= data);
    let h = value_at(data, j);
    let b2 = w[n];
    let b1 = w[n + 1];
    let b0 = w[n + 2];
    assert(value_at(w3, j) == shifted(h, j) ^ b2);
    assert(value_at(w2, j) == shifted(value_at(w3, j), j) ^ b1);
    lemma_shifted_xor(shifted(h, j), b2, j);
    lemma_shifted_add(h, j, j);
    lemma_shifted_xor(shifted(shifted(h, j), j) ^ shifted(b2, j), b1, j);
    lemma_shifted_xor(shifted(shifted(h, j), j), shifted(b2, j), j);
    lemma_shifted_add(h, j + j, j);
    lemma_shifted_add(b2, j, j);
    assert(shifted(h, j + j + j) == shifted(h, 3 * j));
    assert(shifted(b2, j + j) == shifted(b2, 2 * j));
    assert(value_at(w, j) == ((shifted(h, 3 * j) ^ shifted(b2, 2 * j)) ^ shifted(b1, j)) ^ b0);
    lemma_cancel(shifted(b2, 2 * j), shifted(b1, j), b0, shifted(h, 3 * j));
}

proof fn lemma_cancel(b2: u8, b1: u8, b0: u8, h: u8)
    by (bit_vector)
    requires
        (b2 ^ b1) ^ b0 == h,
    ensures
        ((h ^ b2) ^ b1) ^ b0 == 0,
{
}

/// `a` times alpha.
fn mul_alpha(a: u8) -> (r: u8)
    ensures
        r == times_alpha(a),
{
    if a & 0x80 != 0 {
        (a << 1) ^ 0x1D
    } else {
        a << 1
    }
}

/// The masked parity of nine data symbols: unmasked behind the data, it
/// completes a codeword.
pub fn rs_12_9_fec(data: &[u8; 9], mask: &[u8; 3]) -> (r: [u8; 3])
    ensures
        is_codeword(unmasked(data@, r@, mask@)),
{
    let mut b2: u8 = 0;
    let mut b1: u8 = 0;
    let mut b0: u8 = 0;
    let mut i: usize = 0;
    proof {
        lemma_shifted_xor(0, 0, 1);
        lemma_shifted_xor(0, 0, 2);
        lemma_shifted_xor(0, 0, 3);
        lemma_shifted_xor(0, 0, 4);
        lemma_shifted_xor(0, 0, 6);
        lemma_shifted_xor(0, 0, 9);
        lemma_xor(0, 0, 0, 0);
        assert(data@.take(0) =~= Seq::<u8>::empty());
    }
    while i < 9
        invariant
            i <= 9,
            data@.len() == 9,
            forall|j: nat|
                1 <= j <= 3 ==> #[trigger] register_at(b2, b1, b0, j) == shifted(
                    value_at(data@.take(i as int), j),
                    3 * j,
                ),
        decreases 9 - i,
    {
        let d: u8 = data[i];
        let f: u8 = d ^ b2;
        let f1: u8 = mul_alpha(f);
        let f2: u8 = mul_alpha(f1);
        let f3: u8 = mul_alpha(f2);
        let f4: u8 = mul_alpha(f3);
        let f5: u8 = mul_alpha(f4);
        let f6: u8 = mul_alpha(f5);
        proof {
            reveal_with_fuel(shifted, 7);
            assert(f1 == shifted(f, 1) && f2 == shifted(f, 2) && f3 == shifted(f, 3));
            assert(f4 == shifted(f, 4) && f5 == shifted(f, 5) && f6 == shifted(f, 6));
        }
        let ghost (o2, o1, o0) = (b2, b1, b0);
        b2 = b1 ^ ((f1 ^ f2) ^ f3);
        b1 = b0 ^ ((f3 ^ f4) ^ f5);
        b0 = f6;
        proof {
            let before = data@.take(i as int);
            let after = data@.take(i + 1);
            assert(after.drop_last() =~= before);
            assert forall|j: nat| 1 <= j <= 3 implies #[trigger] register_at(b2, b1, b0, j)
                == shifted(value_at(after, j), 3 * j) by {
                lemma_register_step(o2, o1, o0, d, j);
                assert(register_at(o2, o1, o0, j) == shifted(value_at(before, j), 3 * j));
                let h = value_at(before, j);
                lemma_shifted_add(h, 3 * j, j);
                lemma_shifted_add(h, j, 3 * j);
                lemma_shifted_xor(shifted(h, j), d, 3 * j);
            }
        }
        i += 1;
    }
    let r: [u8; 3] = [b2 ^ mask[0], b1 ^ mask[1], b0 ^ mask[2]];
    proof {
        assert(data@.take(9) =~= data@);
        lemma_xor(b2, mask[0], 0, 0);
        lemma_xor(b1, mask[1], 0, 0);
        lemma_xor(b0, mask[2], 0, 0);
        let w = unmasked(data@, r@, mask@);
        assert(w.subrange(0, 9) =~= data@);
        assert(w[9] == b2 && w[10] == b1 && w[11] == b0);
        assert forall|j: nat| 1 <= j <= 3 implies #[trigger] value_at(w, j) == 0 by {
            assert(register_at(b2, b1, b0, j) == shifted(value_at(data@, j), 3 * j));
            lemma_appended_remainder(data@, w, j);
        }
    }
    r
}

/// The values of a received word at the roots of the code.
pub fn rs_12_9_syndromes(codeword: &[u8; 12]) -> (r: [u8; 3])
    ensures
        r@ == syndromes(codeword@),
{
    let mut s1: u8 = 0;
    let mut s2: u8 = 0;
    let mut s3: u8 = 0;
    let mut i: usize = 0;
    while i < 12
        invariant
            i <= 12,
            codeword@.len() == 12,
            s1 == value_at(codeword@.take(i as int), 1),
            s2 == value_at(codeword@.take(i as int), 2),
            s3 == value_at(codeword@.take(i as int), 3),
        decreases 12 - i,
    {
        proof {
            assert(codeword@.take(i + 1).drop_last() =~= codeword@.take(i as int));
            reveal_with_fuel(shifted, 4);
        }
        s1 = mul_alpha(s1) ^ codeword[i];
        s2 = mul_alpha(mul_alpha(s2)) ^ codeword[i];
        s3 = mul_alpha(mul_alpha(mul_alpha(s3))) ^ codeword[i];
        i += 1;
    }
    assert(codeword@.take(12) =~= codeword@);
    let r: [u8; 3] = [s1, s2, s3];
    assert(r@ =~= syndromes(codeword@));
    r
}

// ---------------------------------------------------------------------------
// Correction
// ---------------------------------------------------------------------------

/// `a` divided by alpha.
fn div_alpha(a: u8) -> (r: u8)
    ensures
        times_alpha(r) == a,
{
    let r: u8 = if a & 1 != 0 {
        (a >> 1) ^ 0x8E
    } else {
        a >> 1
    };
    assert(times_alpha(if a & 1 != 0 {
        (a >> 1) ^ 0x8E
    } else {
        a >> 1
    }) == a) by (bit_vector);
    r
}

/// `e` added to symbol `k` cancels the syndromes that an error `e` there gives.
proof fn lemma_error_pattern(w: Seq<u8>, k: int, e: u8)
    requires
        w.len() == 12,
        0 <= k < 12,
    ensures
        is_codeword(w.update(k, w[k] ^ e)) <==> {
            &&& value_at(w, 1) == shifted(e, (11 - k) as nat)
            &&& value_at(w, 2) == shifted(value_at(w, 1), (11 - k) as nat)
            &&& value_at(w, 3) == shifted(value_at(w, 2), (11 - k) as nat)
        },
{
    let i = (11 - k) as nat;
    lemma_value_update(w, k, e, 1);
    lemma_value_update(w, k, e, 2);
    lemma_value_update(w, k, e, 3);
    lemma_shifted_add(e, i, i);
    lemma_shifted_add(e, i + i, i);
    assert(shifted(e, 2 * i) == shifted(e, i + i));
    assert(shifted(e, 3 * i) == shifted(e, i + i + i));
    lemma_xor(value_at(w, 1), shifted(e, i), 0, 0);
    lemma_xor(value_at(w, 2), shifted(e, 2 * i), 0, 0);
    lemma_xor(value_at(w, 3), shifted(e, 3 * i), 0, 0);
    lemma_xor(shifted(e, i), 0, 0, 0);
    lemma_xor(shifted(e, 2 * i), 0, 0, 0);
    lemma_xor(shifted(e, 3 * i), 0, 0, 0);
}

/// A word that is one symbol away is the word with something added there.
proof fn lemma_apart_is_error(w: Seq<u8>, v: Seq<u8>) -> (r: (int, u8))
    requires
        one_symbol_apart(w, v),
    ensures
        0 <= r.0 < w.len(),
        v == w.update(r.0, w[r.0] ^ r.1),
{
    let k = choose|k: int| 0 <= k < w.len() && v == #[trigger] w.update(k, v[k]);
    lemma_xor(w[k], v[k], 0, 0);
    (k, w[k] ^ v[k])
}

/// Replaces the word by the codeword at most one symbol away, if there is one,
/// and says whether there is.
pub fn rs_12_9_correct(codeword: &mut [u8; 12]) -> (r: bool)
    ensures
        r ==> is_codeword(final(codeword)@) && one_symbol_apart(old(codeword)@, final(codeword)@),
        !r ==> final(codeword)@ == old(codeword)@,
        !r ==> forall|v: Seq<u8>| #[trigger]
            one_symbol_apart(old(codeword)@, v) ==> !is_codeword(v),
{
    let ghost w = codeword@;
    let s = rs_12_9_syndromes(codeword);
    assert(s[0] == syndromes(w)[0] && s[1] == syndromes(w)[1] && s[2] == syndromes(w)[2]);
    if s[0] == 0 && s[1] == 0 && s[2] == 0 {
        assert(w =~= w.update(0, w[0]));
        return true;
    }
    let mut i: usize = 0;
    let mut t1: u8 = s[0];
    let mut t2: u8 = s[1];
    let mut e: u8 = s[0];
    while i < 12
        invariant
            i <= 12,
            codeword@ == w,
            w == old(codeword)@,
            w.len() == 12,
            s[0] == value_at(w, 1),
            s[1] == value_at(w, 2),
            s[2] == value_at(w, 3),
            t1 == shifted(s[0], i as nat),
            t2 == shifted(s[1], i as nat),
            s[0] == shifted(e, i as nat),
            forall|k: int|
                0 <= k < i ==> !(#[trigger] shifted(s[0], k as nat) == s[1] && shifted(
                    s[1],
                    k as nat,
                ) == s[2]),
        decreases 12 - i,
    {
        if t1 == s[1] && t2 == s[2] {
            let at: usize = 11 - i;
            proof {
                lemma_error_pattern(w, at as int, e);
            }
            codeword[at] = codeword[at] ^ e;
            assert(codeword@ =~= w.update(at as int, codeword@[at as int]));
            return true;
        }
        t1 = mul_alpha(t1);
        t2 = mul_alpha(t2);
        let half: u8 = div_alpha(e);
        proof {
            lemma_shifted_add(half, 1, i as nat);
            reveal_with_fuel(shifted, 2);
            assert(shifted(half, 1) == e);
        }
        e = half;
        i += 1;
    }
    proof {
        assert forall|v: Seq<u8>| #[trigger] one_symbol_apart(w, v) implies !is_codeword(v) by {
            if is_codeword(v) {
                let (k, err) = lemma_apart_is_error(w, v);
                lemma_error_pattern(w, k, err);
                assert(shifted(s[0], (11 - k) as nat) == s[1]);
            }
        }
    }
    false
}

proof fn lemma_alpha_orders(
    c0: u8, c1: u8, c2: u8, c3: u8, c4: u8, c5: u8, c6: u8, c7: u8, c8: u8, c9: u8, c10: u8, c11: u8,
)
    by (bit_vector)
    requires
        c1 == times_alpha(c0),
        c2 == times_alpha(c1),
        c3 == times_alpha(c2),
        c4 == times_alpha(c3),
        c5 == times_alpha(c4),
        c6 == times_alpha(c5),
        c7 == times_alpha(c6),
        c8 == times_alpha(c7),
        c9 == times_alpha(c8),
        c10 == times_alpha(c9),
        c11 == times_alpha(c10),
        c0 != 0,
    ensures
        c1 != c0,
        c2 != c0,
        c3 != c0,
        c4 != c0,
        c5 != c0,
        c6 != c0,
        c7 != c0,
        c8 != c0,
        c9 != c0,
        c10 != c0,
        c11 != c0,
{
}

/// Different places give an error different weights.
proof fn lemma_places_differ(c: u8, m: nat, n: nat)
    requires
        m < n <= 11,
        shifted(c, m) == shifted(c, n),
    ensures
        c == 0,
{
    let d = (n - m) as nat;
    lemma_shifted_add(c, d, m);
    lemma_shifted_injective(c, shifted(c, d), m);
    reveal_with_fuel(shifted, 12);
    if c != 0 {
        lemma_alpha_orders(
            c,
            shifted(c, 1),
            shifted(c, 2),
            shifted(c, 3),
            shifted(c, 4),
            shifted(c, 5),
            shifted(c, 6),
            shifted(c, 7),
            shifted(c, 8),
            shifted(c, 9),
            shifted(c, 10),
            shifted(c, 11),
        );
    }
}

/// Law: no word is one symbol away from two codewords: a word that is a
/// codeword with at most one wrong symbol determines that codeword.
pub proof fn law_correction_unique(w: Seq<u8>, u: Seq<u8>, v: Seq<u8>)
    requires
        w.len() == 12,
        one_symbol_apart(w, u),
        one_symbol_apart(w, v),
        is_codeword(u),
        is_codeword(v),
    ensures
        u == v,
{
    let (k, a) = lemma_apart_is_error(w, u);
    let (l, b) = lemma_apart_is_error(w, v);
    lemma_error_pattern(w, k, a);
    lemma_error_pattern(w, l, b);
    let m = (11 - k) as nat;
    let n = (11 - l) as nat;
    let c = value_at(w, 1);
    if k == l {
        lemma_shifted_injective(a, b, m);
    } else {
        if m < n {
            lemma_places_differ(c, m, n);
        } else {
            lemma_places_differ(c, n, m);
        }
        lemma_shifted_xor(0, 0, m);
        lemma_shifted_xor(0, 0, n);
        lemma_shifted_injective(a, 0, m);
        lemma_shifted_injective(b, 0, n);
        lemma_xor(w[k], 0, 0, 0);
        lemma_xor(w[l], 0, 0, 0);
        assert(u =~= w);
        assert(v =~= w);
    }
}

/// Law: one wrong symbol is put right: what the correction makes of a codeword
/// with symbol `k` changed is the codeword.
pub proof fn law_single_symbol_recovered(c: Seq<u8>, k: int, wrong: u8, read: Seq<u8>)
    requires
        is_codeword(c),
        0 <= k < 12,
        is_codeword(read),
        one_symbol_apart(c.update(k, wrong), read),
    ensures
        one_symbol_apart(c.update(k, wrong), c),
        read == c,
{
    let w = c.update(k, wrong);
    assert(w.update(k, c[k]) =~= c);
    law_correction_unique(w, c, read);
}

proof fn lemma_parity_zero(
    a0: u8, a1: u8, a2: u8, a3: u8, a4: u8, a5: u8, a6: u8,
    b0: u8, b1: u8, b2: u8, b3: u8,
    c: u8,
)
    by (bit_vector)
    requires
        a1 == times_alpha(a0),
        a2 == times_alpha(a1),
        a3 == times_alpha(a2),
        a4 == times_alpha(a3),
        a5 == times_alpha(a4),
        a6 == times_alpha(a5),
        b1 == times_alpha(b0),
        b2 == times_alpha(b1),
        b3 == times_alpha(b2),
        (a2 ^ b1) ^ c == 0,
        (a4 ^ b2) ^ c == 0,
        (a6 ^ b3) ^ c == 0,
    ensures
        a0 == 0 && b0 == 0 && c == 0,
{
}

/// Law: the parity is determined by the data and the mask.
pub proof fn law_parity_unique(data: Seq<u8>, mask: Seq<u8>, p: Seq<u8>, q: Seq<u8>)
    requires
        data.len() == 9,
        mask.len() == 3,
        p.len() == 3,
        q.len() == 3,
        is_codeword(unmasked(data, p, mask)),
        is_codeword(unmasked(data, q, mask)),
    ensures
        p == q,
{
    let u = unmasked(data, p, mask);
    let v = unmasked(data, q, mask);
    let zeros = Seq::new(9, |i: int| 0u8);
    let d = zeros + seq![u[9] ^ v[9], u[10] ^ v[10], u[11] ^ v[11]];
    assert forall|i: int| 0 <= i < 12 implies d[i] == u[i] ^ v[i] by {
        lemma_xor(u[i], 0, 0, 0);
    }
    lemma_xor(0, 0, 0, 0);
    assert forall|j: nat| 1 <= j <= 3 implies register_at(d[9], d[10], d[11], j) == 0 by {
        lemma_value_xor(u, v, d, j);
        assert(value_at(u, j) == 0 && value_at(v, j) == 0);
        lemma_value_zeros(9, j);
        let d2 = d.drop_last();
        let d3 = d2.drop_last();
        assert(d3.drop_last() =~= zeros);
        lemma_shifted_xor(0, 0, j);
        lemma_xor(d[9], 0, 0, 0);
        assert(value_at(d3, j) == d[9]);
        assert(value_at(d2, j) == shifted(d[9], j) ^ d[10]);
        lemma_shifted_xor(shifted(d[9], j), d[10], j);
        lemma_shifted_add(d[9], j, j);
        assert(shifted(d[9], j + j) == shifted(d[9], 2 * j));
    }
    assert(register_at(d[9], d[10], d[11], 1) == 0);
    assert(register_at(d[9], d[10], d[11], 2) == 0);
    assert(register_at(d[9], d[10], d[11], 3) == 0);
    reveal_with_fuel(shifted, 7);
    let a = d[9];
    let b = d[10];
    lemma_parity_zero(
        a,
        shifted(a, 1),
        shifted(a, 2),
        shifted(a, 3),
        shifted(a, 4),
        shifted(a, 5),
        shifted(a, 6),
        b,
        shifted(b, 1),
        shifted(b, 2),
        shifted(b, 3),
        d[11],
    );
    assert forall|i: int| 0 <= i < 3 implies p[i] == q[i] by {
        lemma_xor(u[9 + i], v[9 + i], 0, 0);
        lemma_xor(p[i], mask[i], 0, 0);
        lemma_xor(q[i], mask[i], 0, 0);
    }
    assert(p =~= q);
}

proof fn lemma_value_zeros(n: nat, j: nat)
    ensures
        value_at(Seq::new(n, |i: int| 0u8), j) == 0,
    decreases n,
{
    if n > 0 {
        let z = Seq::new(n, |i: int| 0u8);
        assert(z.drop_last() =~= Seq::new((n - 1) as nat, |i: int| 0u8));
        lemma_value_zeros((n - 1) as nat, j);
        lemma_shifted_xor(0, 0, j);
        lemma_xor(0, 0, 0, 0);
    }
}

/// Law: the syndromes of a word are its values, as a polynomial over GF(256) with the
/// first symbol its highest coefficient, at the first three powers of alpha: the value
/// of a longer word is that of the shorter one times the power, plus the last symbol,
/// and alpha times a symbol is its double, reduced by x^8 + x^4 + x^3 + x^2 + 1.
pub proof fn law_syndromes(w: Seq<u8>, a: u8)
    requires
        w.len() > 0,
    ensures
        syndromes(w).len() == 3,
        syndromes(w)[0] == times_alpha(value_at(w.drop_last(), 1)) ^ w.last(),
        syndromes(w)[1] == times_alpha(times_alpha(value_at(w.drop_last(), 2))) ^ w.last(),
        syndromes(w)[2] == times_alpha(times_alpha(times_alpha(value_at(w.drop_last(), 3)))) ^ w.last(),
        value_at(seq![], 1) == 0 && value_at(seq![], 2) == 0 && value_at(seq![], 3) == 0,
        a < 128 ==> times_alpha(a) == 2 * a,
        a >= 128 ==> times_alpha(a) == ((2 * a - 256) as u8) ^ 0x1D,
        is_codeword(w) <==> w.len() == 12 && syndromes(w)[0] == 0 && syndromes(w)[1] == 0
            && syndromes(w)[2] == 0,
{
    reveal_with_fuel(shifted, 4);
    assert(a < 128 ==> a & 0x80 == 0 && a << 1 == 2 * a) by (bit_vector);
    assert(a >= 128 ==> a & 0x80 != 0 && a << 1 == 2 * a - 256) by (bit_vector);
}

} // verus!
