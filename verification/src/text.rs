//! Text in fields of limited width.

use vstd::prelude::*;
use vstd::string::*;
use vstd::utf8::*;

verus! {

/// The last character boundary at or before byte `k`.
pub open spec fn floor_boundary(bytes: Seq<u8>, k: int) -> int
    decreases k,
{
    if k <= 0 {
        0
    } else if is_char_boundary(bytes, k) {
        k
    } else {
        floor_boundary(bytes, k - 1)
    }
}

/// Where text of the given bytes is cut to fit `limit` bytes.
pub open spec fn cut_length(bytes: Seq<u8>, limit: int) -> int {
    floor_boundary(
        bytes,
        if limit < bytes.len() {
            limit
        } else {
            bytes.len() as int
        },
    )
}

/// The bytes of text cut, between characters, to fit `limit` bytes.
pub open spec fn cut(s: Seq<char>, limit: int) -> Seq<u8> {
    encode_utf8(s).subrange(0, cut_length(encode_utf8(s), limit))
}

/// `n` spaces.
pub open spec fn spaces(n: int) -> Seq<u8> {
    Seq::new(n as nat, |i: int| 0x20u8)
}

/// Text cut to `width` bytes and filled up with spaces.
pub open spec fn padded(s: Seq<char>, width: int) -> Seq<u8> {
    cut(s, width) + spaces(width - cut(s, width).len())
}

proof fn lemma_floor_boundary(bytes: Seq<u8>, k: int)
    requires
        valid_utf8(bytes),
        0 <= k <= bytes.len(),
    ensures
        0 <= floor_boundary(bytes, k) <= k,
        is_char_boundary(bytes, floor_boundary(bytes, k)),
        forall|j: int| floor_boundary(bytes, k) < j <= k ==> !#[trigger] is_char_boundary(bytes, j),
    decreases k,
{
    if k <= 0 {
        is_char_boundary_start_end_of_seq(bytes);
    } else if !is_char_boundary(bytes, k) {
        lemma_floor_boundary(bytes, k - 1);
    }
}

/// Law: cut text fits, is a prefix, ends between characters, and no longer
/// prefix does all three.
pub proof fn law_cut(s: Seq<char>, limit: int)
    requires
        0 <= limit,
    ensures
        ({
            let b = encode_utf8(s);
            let n = cut_length(b, limit);
            &&& cut(s, limit) == b.subrange(0, n)
            &&& 0 <= n <= limit
            &&& n <= b.len()
            &&& is_char_boundary(b, n)
            &&& forall|j: int| n < j <= limit && j <= b.len() ==> !#[trigger] is_char_boundary(b, j)
        }),
        encode_utf8(s).len() <= limit ==> cut(s, limit) == encode_utf8(s),
{
    let b = encode_utf8(s);
    encode_utf8_valid_utf8(s);
    let k = if limit < b.len() {
        limit
    } else {
        b.len() as int
    };
    lemma_floor_boundary(b, k);
    if b.len() <= limit {
        is_char_boundary_start_end_of_seq(b);
        assert(b.subrange(0, b.len() as int) =~= b);
    }
}

/// Law: a padded field has its width.
pub proof fn law_padded_width(s: Seq<char>, width: int)
    requires
        0 <= width,
    ensures
        padded(s, width).len() == width,
{
    law_cut(s, width);
}

/// The bytes of joined text are the joined bytes.
pub proof fn lemma_encode_concat(a: Seq<char>, b: Seq<char>)
    ensures
        encode_utf8(a + b) == encode_utf8(a) + encode_utf8(b),
    decreases a.len(),
{
    if a.len() == 0 {
        assert(a + b =~= b);
        assert(encode_utf8(a) + encode_utf8(b) =~= encode_utf8(b));
    } else {
        assert((a + b).drop_first() =~= a.drop_first() + b);
        lemma_encode_concat(a.drop_first(), b);
        assert(encode_utf8(a + b) =~= encode_utf8(a) + encode_utf8(b));
    }
}

/// The bytes of ASCII text are its characters.
pub proof fn lemma_encode_ascii(s: Seq<char>)
    requires
        is_ascii_chars(s),
    ensures
        encode_utf8(s).len() == s.len(),
        forall|i: int| 0 <= i < s.len() ==> #[trigger] encode_utf8(s)[i] == s[i] as u8,
{
    is_ascii_chars_encode_utf8(s);
}

/// The longest prefix of `s` that fits `limit` bytes.
pub fn prefix(s: &str, limit: usize) -> (r: &str)
    ensures
        encode_utf8(r@) == cut(s@, limit as int),
{
    let n: usize = s.as_bytes().len();
    let mut k: usize = if limit < n {
        limit
    } else {
        n
    };
    proof {
        encode_utf8_valid_utf8(s@);
        is_char_boundary_start_end_of_seq(s.spec_bytes());
        lemma_floor_boundary(s.spec_bytes(), k as int);
    }
    while !s.is_char_boundary(k)
        invariant
            k <= n,
            valid_utf8(s.spec_bytes()),
            n == s.spec_bytes().len(),
            is_char_boundary(s.spec_bytes(), 0),
            floor_boundary(s.spec_bytes(), k as int) == cut_length(s.spec_bytes(), limit as int),
        decreases k,
    {
        k -= 1;
    }
    assert(floor_boundary(s.spec_bytes(), k as int) == k);
    let (head, _) = s.split_at(k);
    head
}

/// Text cut to `width` bytes, between characters, and filled up with spaces.
pub fn fmt_str(value: &str, width: usize) -> (r: String)
    ensures
        encode_utf8(r@) == padded(value@, width as int),
{
    let head = prefix(value, width);
    let used: usize = head.as_bytes().len();
    proof {
        law_cut(value@, width as int);
        reveal_strlit(" ");
    }
    let mut s = head.to_owned();
    let mut i: usize = used;
    assert(spaces(0) =~= Seq::<u8>::empty());
    assert(cut(value@, width as int) + spaces(0) =~= cut(value@, width as int));
    while i < width
        invariant
            used <= i <= width,
            encode_utf8(s@) == cut(value@, width as int) + spaces(i - used),
            " "@ == seq![' '],
        decreases width - i,
    {
        let ghost before = s@;
        s.append(" ");
        proof {
            lemma_encode_concat(before, " "@);
            lemma_encode_ascii(" "@);
            assert(encode_utf8(" "@) =~= seq![0x20u8]);
            assert(encode_utf8(s@) =~= cut(value@, width as int) + spaces(i + 1 - used));
        }
        i += 1;
    }
    s
}

/// The character of a decimal digit.
pub open spec fn digit_char(d: int) -> char {
    (48 + d) as char
}

/// The last `width` decimal digits of `v`, with leading zeros.
pub open spec fn digits(v: int, width: int) -> Seq<char>
    decreases width,
{
    if width <= 0 {
        seq![]
    } else {
        digits(v / 10, width - 1).push(digit_char(v % 10))
    }
}

/// The number that decimal digits spell.
pub open spec fn number(s: Seq<char>) -> int
    decreases s.len(),
{
    if s.len() == 0 {
        0
    } else {
        number(s.drop_last()) * 10 + (s.last() as int - 48)
    }
}

/// Ten to the power of `n`.
pub open spec fn power_of_ten(n: int) -> int
    decreases n,
{
    if n <= 0 {
        1
    } else {
        10 * power_of_ten(n - 1)
    }
}

/// Law: a number below ten to the power of the width is spelled by its digits.
pub proof fn law_digits(v: int, width: int)
    requires
        0 <= width,
        0 <= v < power_of_ten(width),
    ensures
        digits(v, width).len() == width,
        number(digits(v, width)) == v,
        is_ascii_chars(digits(v, width)),
    decreases width,
{
    if width > 0 {
        assert(v / 10 < power_of_ten(width - 1));
        law_digits(v / 10, width - 1);
        let head = digits(v / 10, width - 1);
        assert(digits(v, width).drop_last() =~= head);
        assert(digits(v, width).last() as int == 48 + v % 10);
    }
}

fn digit(d: u32) -> (r: &'static str)
    requires
        d < 10,
    ensures
        r@ == seq![digit_char(d as int)],
{
    proof {
        reveal_strlit("0");
        reveal_strlit("1");
        reveal_strlit("2");
        reveal_strlit("3");
        reveal_strlit("4");
        reveal_strlit("5");
        reveal_strlit("6");
        reveal_strlit("7");
        reveal_strlit("8");
        reveal_strlit("9");
    }
    let r: &'static str = match d {
        0 => "0",
        1 => "1",
        2 => "2",
        3 => "3",
        4 => "4",
        5 => "5",
        6 => "6",
        7 => "7",
        8 => "8",
        _ => "9",
    };
    assert(r@ =~= seq![digit_char(d as int)]);
    r
}

/// The last `width` decimal digits of `v`, with leading zeros.
pub fn fmt_digits(v: u32, width: usize) -> (r: String)
    ensures
        r@ == digits(v as int, width as int),
    decreases width,
{
    if width == 0 {
        return String::new();
    }
    let mut s = fmt_digits(v / 10, width - 1);
    s.append(digit(v % 10));
    assert(s@ =~= digits(v as int, width as int));
    s
}

/// The decimal digits of a number, without leading zeros.
pub open spec fn decimal(v: int) -> Seq<char>
    decreases v,
{
    if v < 10 {
        seq![digit_char(v)]
    } else {
        decimal(v / 10).push(digit_char(v % 10))
    }
}

/// Law: the digits of a number spell it.
pub proof fn law_decimal(v: int)
    requires
        0 <= v,
    ensures
        number(decimal(v)) == v,
        decimal(v).len() > 0,
        decimal(v).len() > 1 ==> decimal(v)[0] != '0',
        is_ascii_chars(decimal(v)),
    decreases v,
{
    if v < 10 {
        assert(decimal(v).drop_last() =~= seq![]);
        assert(number(seq![]) == 0);
    } else {
        law_decimal(v / 10);
        assert(decimal(v).drop_last() =~= decimal(v / 10));
        assert(decimal(v)[0] == decimal(v / 10)[0]);
        if v / 10 < 10 {
            assert(decimal(v / 10)[0] == digit_char(v / 10));
        } else {
            assert(decimal(v / 10).len() == decimal(v / 100).len() + 1);
            law_decimal(v / 100);
        }
    }
}

/// The decimal digits of a number, without leading zeros.
pub fn fmt_decimal(v: u32) -> (r: String)
    ensures
        r@ == decimal(v as int),
    decreases v,
{
    if v < 10 {
        return digit(v).to_owned();
    }
    let mut s = fmt_decimal(v / 10);
    s.append(digit(v % 10));
    assert(s@ =~= decimal(v as int));
    s
}

/// Appends the bytes of text.
pub fn push_text(out: &mut Vec<u8>, s: &str)
    ensures
        final(out)@ == old(out)@ + encode_utf8(s@),
{
    let ghost before = out@;
    out.extend_from_slice(s.as_bytes());
    assert(out@ =~= before + encode_utf8(s@));
}

/// The characters with the `White_Space` property.
pub open spec fn is_space(c: char) -> bool {
    let x = c as u32;
    ||| 0x9 <= x <= 0xD
    ||| x == 0x20
    ||| x == 0x85
    ||| x == 0xA0
    ||| x == 0x1680
    ||| 0x2000 <= x <= 0x200A
    ||| x == 0x2028
    ||| x == 0x2029
    ||| x == 0x202F
    ||| x == 0x205F
    ||| x == 0x3000
}

/// Text without white space at its ends.
pub open spec fn trimmed(s: Seq<char>) -> Seq<char>
    decreases s.len(),
{
    if s.len() == 0 {
        s
    } else if is_space(s[0]) {
        trimmed(s.drop_first())
    } else if is_space(s.last()) {
        trimmed(s.drop_last())
    } else {
        s
    }
}

fn space(c: char) -> (r: bool)
    ensures
        r == is_space(c),
{
    let x: u32 = c as u32;
    (0x9 <= x && x <= 0xD) || x == 0x20 || x == 0x85 || x == 0xA0 || x == 0x1680 || (0x2000 <= x && x
        <= 0x200A) || x == 0x2028 || x == 0x2029 || x == 0x202F || x == 0x205F || x == 0x3000
}

/// Text without white space at its ends.
pub fn trim(s: &str) -> (r: &str)
    ensures
        r@ == trimmed(s@),
{
    let n: usize = s.unicode_len();
    let mut lo: usize = 0;
    let mut hi: usize = n;
    assert(s@.subrange(0, n as int) =~= s@);
    while lo < hi && space(s.get_char(lo))
        invariant
            lo <= hi == n == s@.len(),
            trimmed(s@.subrange(lo as int, hi as int)) == trimmed(s@),
        ensures
            lo <= hi == n == s@.len(),
            trimmed(s@.subrange(lo as int, hi as int)) == trimmed(s@),
            lo < hi ==> !is_space(s@[lo as int]),
        decreases hi - lo,
    {
        let ghost part = s@.subrange(lo as int, hi as int);
        assert(part.drop_first() =~= s@.subrange(lo + 1, hi as int));
        lo += 1;
    }
    while lo < hi && space(s.get_char(hi - 1))
        invariant
            lo <= hi <= n == s@.len(),
            trimmed(s@.subrange(lo as int, hi as int)) == trimmed(s@),
            lo < hi ==> !is_space(s@[lo as int]),
        ensures
            lo <= hi <= n == s@.len(),
            trimmed(s@.subrange(lo as int, hi as int)) == trimmed(s@),
            lo < hi ==> !is_space(s@[lo as int]) && !is_space(s@[hi - 1]),
        decreases hi - lo,
    {
        let ghost part = s@.subrange(lo as int, hi as int);
        assert(part.drop_last() =~= s@.subrange(lo as int, hi - 1));
        hi -= 1;
    }
    s.substring_char(lo, hi)
}

/// `s` from `a` to `b` has only white space around it and none at its ends.
pub open spec fn is_middle(s: Seq<char>, a: int, b: int) -> bool {
    &&& 0 <= a <= b <= s.len()
    &&& forall|i: int| 0 <= i < a || b <= i < s.len() ==> is_space(#[trigger] s[i])
    &&& a < b ==> !is_space(s[a]) && !is_space(s[b - 1])
}

proof fn lemma_middle_after_first(s: Seq<char>, a: int, b: int)
    requires
        s.len() > 0,
        is_space(s[0]),
        is_middle(s.drop_first(), a, b),
    ensures
        is_middle(s, a + 1, b + 1),
        s.drop_first().subrange(a, b) == s.subrange(a + 1, b + 1),
{
    assert forall|i: int| 0 <= i < a + 1 || b + 1 <= i < s.len() implies is_space(
        #[trigger] s[i],
    ) by {
        if i > 0 {
            assert(s.drop_first()[i - 1] == s[i]);
        }
    }
    assert(s.drop_first().subrange(a, b) =~= s.subrange(a + 1, b + 1));
}

proof fn lemma_middle_before_last(s: Seq<char>, a: int, b: int)
    requires
        s.len() > 0,
        is_space(s.last()),
        is_middle(s.drop_last(), a, b),
    ensures
        is_middle(s, a, b),
        s.drop_last().subrange(a, b) == s.subrange(a, b),
{
    assert forall|i: int| 0 <= i < a || b <= i < s.len() implies is_space(#[trigger] s[i]) by {
        if i < s.len() - 1 {
            assert(s.drop_last()[i] == s[i]);
        }
    }
    assert(s.drop_last().subrange(a, b) =~= s.subrange(a, b));
}

/// Law: trimmed text is a middle part of the text, with only white space around
/// it and none at its ends.
pub proof fn law_trimmed(s: Seq<char>) -> (at: (int, int))
    ensures
        is_middle(s, at.0, at.1),
        trimmed(s) == s.subrange(at.0, at.1),
    decreases s.len(),
{
    if s.len() == 0 {
        assert(s.subrange(0, 0) =~= s);
        (0, 0)
    } else if is_space(s[0]) {
        let (a, b) = law_trimmed(s.drop_first());
        lemma_middle_after_first(s, a, b);
        (a + 1, b + 1)
    } else if is_space(s.last()) {
        let (a, b) = law_trimmed(s.drop_last());
        lemma_middle_before_last(s, a, b);
        (a, b)
    } else {
        assert(s.subrange(0, s.len() as int) =~= s);
        (0, s.len() as int)
    }
}

/// Whether text holds a line break.
pub fn has_line_break(s: &str) -> (r: bool)
    ensures
        r == s@.contains('\n'),
{
    let n: usize = s.unicode_len();
    let mut i: usize = 0;
    while i < n
        invariant
            i <= n == s@.len(),
            forall|k: int| 0 <= k < i ==> s@[k] != '\n',
        decreases n - i,
    {
        if s.get_char(i) == '\n' {
            assert(s@[i as int] == '\n');
            return true;
        }
        i += 1;
    }
    false
}

/// Law: of a field, the text comes first and only spaces follow it.
pub proof fn law_padded(s: Seq<char>, width: int, i: int)
    requires
        0 <= i < width,
    ensures
        i < cut(s, width).len() ==> padded(s, width)[i] == encode_utf8(s)[i],
        i >= cut(s, width).len() ==> padded(s, width)[i] == 0x20,
{
    law_cut(s, width);
}

/// Law: digits stand in order of their value, the last one for the ones; zeros
/// lead a number that is shorter than the width, and none leads otherwise.
pub proof fn law_digit_places(v: int, width: int)
    requires
        0 <= v,
        0 < width,
    ensures
        digits(v, width).len() == width,
        digits(v, width).last() as int == 0x30 + v % 10,
        digits(v, width).drop_last() == digits(v / 10, width - 1),
        v < 10 ==> decimal(v).len() == 1 && decimal(v)[0] as int == 0x30 + v,
        v >= 10 ==> decimal(v).last() as int == 0x30 + v % 10 && decimal(v).drop_last() == decimal(
            v / 10,
        ),
    decreases width,
{
    if width > 1 {
        law_digit_places(v / 10, width - 1);
    }
    assert(digits(v, width).drop_last() =~= digits(v / 10, width - 1));
    if v >= 10 {
        assert(decimal(v).drop_last() =~= decimal(v / 10));
    }
}

/// Law: text spells the number that its digits give from the first to the last.
pub proof fn law_number(s: Seq<char>, c: char)
    requires
        '0' <= c <= '9',
    ensures
        number(Seq::empty()) == 0,
        number(s.push(c)) == 10 * number(s) + (c as int - 0x30),
{
    assert(s.push(c).drop_last() =~= s);
}

/// Law: the white space at the ends of a text is that of Unicode.
pub proof fn law_white_space(c: char)
    ensures
        is_space(c) <==> {
            let x = c as int;
            x == 9 || x == 10 || x == 11 || x == 12 || x == 13 || x == 32 || x == 133 || x == 160 || x
                == 5760 || 8192 <= x <= 8202 || x == 8232 || x == 8233 || x == 8239 || x == 8287 || x
                == 12288
        },
{
}

} // verus!
