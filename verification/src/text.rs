//! Character-level helpers shared by the formatting and parsing code.

use vstd::prelude::*;

verus! {

/// The ASCII digit for `d` (`0 <= d < 10`).
pub open spec fn digit_char(d: int) -> char {
    if d <= 0 {
        '0'
    } else if d == 1 {
        '1'
    } else if d == 2 {
        '2'
    } else if d == 3 {
        '3'
    } else if d == 4 {
        '4'
    } else if d == 5 {
        '5'
    } else if d == 6 {
        '6'
    } else if d == 7 {
        '7'
    } else if d == 8 {
        '8'
    } else {
        '9'
    }
}

/// Decimal rendering of a natural number, without leading zeros.
pub open spec fn dec(n: nat) -> Seq<char>
    decreases n,
{
    if n < 10 {
        seq![digit_char(n as int)]
    } else {
        dec(n / 10).push(digit_char((n % 10) as int))
    }
}

/// `s` left-padded with `'0'` up to `width` characters.
pub open spec fn zero_pad(s: Seq<char>, width: nat) -> Seq<char> {
    if s.len() >= width {
        s
    } else {
        Seq::new((width - s.len()) as nat, |i: int| '0') + s
    }
}

/// Rendering of an integer as `{}` does: a leading `-` for negatives.
pub open spec fn int_text(v: int) -> Seq<char> {
    if v < 0 {
        seq!['-'] + dec((-v) as nat)
    } else {
        dec(v as nat)
    }
}

/// Rendering of an integer as `{:0w}` does: the sign counts toward the width
/// and the zeros go between the sign and the digits.
pub open spec fn int_text_padded(v: int, width: nat) -> Seq<char> {
    if v < 0 {
        seq!['-'] + zero_pad(dec((-v) as nat), if width >= 1 { (width - 1) as nat } else { 0 })
    } else {
        zero_pad(dec(v as nat), width)
    }
}

pub proof fn lemma_dec_len_pos(n: nat)
    ensures
        dec(n).len() >= 1,
        n >= 10 ==> dec(n).len() >= 2,
    decreases n,
{
    if n >= 10 {
        lemma_dec_len_pos(n / 10);
    }
}

pub proof fn lemma_dec_digits(n: nat)
    ensures
        forall|i: int| 0 <= i < dec(n).len() ==> '0' <= #[trigger] dec(n)[i] <= '9',
    decreases n,
{
    if n >= 10 {
        lemma_dec_digits(n / 10);
        let p = dec(n / 10);
        assert(dec(n) == p.push(digit_char((n % 10) as int)));
        assert forall|i: int| 0 <= i < dec(n).len() implies '0' <= #[trigger] dec(n)[i] <= '9' by {
            if i < p.len() {
                assert(dec(n)[i] == p[i]);
            }
        }
    }
}

/// Different numbers have different decimal renderings.
pub proof fn lemma_dec_injective(a: nat, b: nat)
    requires
        dec(a) == dec(b),
    ensures
        a == b,
    decreases a,
{
    lemma_dec_len_pos(a);
    lemma_dec_len_pos(b);
    if a < 10 && b < 10 {
        assert(dec(a) == seq![digit_char(a as int)]);
        assert(dec(b) == seq![digit_char(b as int)]);
        assert(dec(a)[0] == digit_char(a as int));
        assert(dec(b)[0] == digit_char(b as int));
    } else if a >= 10 && b >= 10 {
        let da = dec(a);
        let db = dec(b);
        assert(da == dec(a / 10).push(digit_char((a % 10) as int)));
        assert(db == dec(b / 10).push(digit_char((b % 10) as int)));
        assert(da.last() == db.last());
        assert(digit_char((a % 10) as int) == digit_char((b % 10) as int));
        assert(a % 10 == b % 10);
        assert(da.drop_last() =~= dec(a / 10));
        assert(db.drop_last() =~= dec(b / 10));
        lemma_dec_injective(a / 10, b / 10);
    } else if a < 10 {
        assert(dec(a).len() == 1);
    } else {
        assert(dec(b).len() == 1);
    }
}

/// The ASCII digit for a value below ten.
pub fn digit(d: u64) -> (c: char)
    requires
        d < 10,
    ensures
        c == digit_char(d as int),
{
    match d {
        0 => '0',
        1 => '1',
        2 => '2',
        3 => '3',
        4 => '4',
        5 => '5',
        6 => '6',
        7 => '7',
        8 => '8',
        _ => '9',
    }
}

pub open spec fn pow10(k: nat) -> nat
    decreases k,
{
    if k == 0 {
        1
    } else {
        10 * pow10((k - 1) as nat)
    }
}

/// A number below `10^k` has at most `k` decimal digits.
pub proof fn lemma_dec_len_le(n: nat, k: nat)
    requires
        n < pow10(k),
        k >= 1,
    ensures
        dec(n).len() <= k,
    decreases n,
{
    if n >= 10 {
        assert(pow10(k) == 10 * pow10((k - 1) as nat));
        assert(n / 10 < pow10((k - 1) as nat));
        assert(k >= 2) by {
            if k == 1 {
                assert(pow10(0) == 1);
            }
        }
        lemma_dec_len_le(n / 10, (k - 1) as nat);
        assert(dec(n) == dec(n / 10).push(digit_char((n % 10) as int)));
    } else {
        assert(dec(n) == seq![digit_char(n as int)]);
    }
}

pub proof fn lemma_digit_char_value(d: int)
    requires
        0 <= d < 10,
    ensures
        digit_char(d) as int == d + 48,
{
}

/// Appends the decimal rendering of `n` to `out`.
pub fn push_dec(out: &mut Vec<char>, n: u64)
    ensures
        final(out)@ == old(out)@ + dec(n as nat),
    decreases n,
{
    if n >= 10 {
        push_dec(out, n / 10);
    }
    let c = digit(n % 10);
    out.push(c);
    proof {
        if n >= 10 {
            assert(final(out)@ =~= old(out)@ + dec(n as nat));
        }
    }
}

/// Appends `v` rendered as `{}` would render it.
pub fn push_int(out: &mut Vec<char>, v: i64)
    ensures
        final(out)@ == old(out)@ + int_text(v as int),
{
    if v < 0 {
        out.push('-');
        let m: u64 = if v == i64::MIN {
            9_223_372_036_854_775_808u64
        } else {
            (-v) as u64
        };
        push_dec(out, m);
        proof {
            assert(final(out)@ =~= old(out)@ + int_text(v as int));
        }
    } else {
        push_dec(out, v as u64);
    }
}

/// Appends `'0'` `count` times.
pub fn push_zeros(out: &mut Vec<char>, count: usize)
    ensures
        final(out)@ == old(out)@ + Seq::new(count as nat, |i: int| '0'),
{
    let ghost start = out@;
    let mut k: usize = 0;
    while k < count
        invariant
            k <= count,
            out@ == start + Seq::new(k as nat, |i: int| '0'),
        decreases count - k,
    {
        out.push('0');
        k = k + 1;
        proof {
            assert(out@ =~= start + Seq::new(k as nat, |i: int| '0'));
        }
    }
}

/// Appends `v` rendered as `{:0width$}` would render it.
pub fn push_int_padded(out: &mut Vec<char>, v: i64, width: usize)
    ensures
        final(out)@ == old(out)@ + int_text_padded(v as int, width as nat),
{
    let mut digits: Vec<char> = Vec::new();
    let neg = v < 0;
    let m: u64 = if v == i64::MIN {
        9_223_372_036_854_775_808u64
    } else if v < 0 {
        (-v) as u64
    } else {
        v as u64
    };
    push_dec(&mut digits, m);
    assert(digits@ =~= dec(m as nat));
    let w: usize = if neg {
        if width >= 1 { width - 1 } else { 0 }
    } else {
        width
    };
    if neg {
        out.push('-');
    }
    if digits.len() < w {
        push_zeros(out, w - digits.len());
    }
    push_all(out, &digits);
    proof {
        if neg {
            assert(final(out)@ =~= old(out)@ + int_text_padded(v as int, width as nat));
        } else {
            assert(final(out)@ =~= old(out)@ + int_text_padded(v as int, width as nat));
        }
    }
}

/// Appends every character of `src`.
pub fn push_all(out: &mut Vec<char>, src: &[char])
    ensures
        final(out)@ == old(out)@ + src@,
{
    let ghost start = out@;
    let mut k: usize = 0;
    while k < src.len()
        invariant
            k <= src.len(),
            out@ == start + src@.take(k as int),
        decreases src.len() - k,
    {
        out.push(src[k]);
        k = k + 1;
        proof {
            assert(out@ =~= start + src@.take(k as int));
        }
    }
    proof {
        assert(src@.take(src@.len() as int) =~= src@);
    }
}

/// Appends the characters of a string slice.
pub fn push_str(out: &mut Vec<char>, s: &str)
    ensures
        final(out)@ == old(out)@ + s@,
{
    let cs = chars_of(s);
    push_all(out, &cs);
}

/// The characters of a string slice.
pub fn chars_of(s: &str) -> (v: Vec<char>)
    ensures
        v@ == s@,
{
    let mut v: Vec<char> = Vec::new();
    for c in it: s.chars()
        invariant
            it.seq() == s@,
            v@ == s@.take(it.index() as int),
    {
        v.push(c);
        proof {
            assert(v@ =~= s@.take(it.index() as int + 1));
        }
    }
    proof {
        assert(v@ =~= s@);
    }
    v
}

/// `String::push`: appends one character at the end, as its documentation
/// says.
pub assume_specification[ String::push ](s: &mut String, ch: char)
    ensures
        final(s)@ == old(s)@.push(ch),
;

/// The string made of the given characters.
pub fn string_of(v: &[char]) -> (s: String)
    ensures
        s@ == v@,
{
    let mut s = String::new();
    let mut i: usize = 0;
    while i < v.len()
        invariant
            i <= v@.len(),
            s@ == v@.take(i as int),
        decreases v@.len() - i,
    {
        s.push(v[i]);
        i = i + 1;
        proof {
            assert(s@ =~= v@.take(i as int));
        }
    }
    proof {
        assert(v@.take(v@.len() as int) =~= v@);
    }
    s
}

/// Whether two character sequences are equal.
pub fn chars_eq(a: &[char], b: &[char]) -> (r: bool)
    ensures
        r == (a@ == b@),
{
    if a.len() != b.len() {
        return false;
    }
    let mut k: usize = 0;
    while k < a.len()
        invariant
            a.len() == b.len(),
            k <= a.len(),
            forall|j: int| 0 <= j < k ==> a@[j] == b@[j],
        decreases a.len() - k,
    {
        if a[k] != b[k] {
            return false;
        }
        k = k + 1;
    }
    assert(a@ =~= b@);
    true
}

/// Whether a string slice equals a character sequence.
pub fn str_eq_chars(s: &str, b: &[char]) -> (r: bool)
    ensures
        r == (s@ == b@),
{
    let a = chars_of(s);
    chars_eq(&a, b)
}

/// `char::is_whitespace`: the Unicode `White_Space` property.
pub open spec fn is_white_space(c: char) -> bool {
    ||| '\u{0009}' <= c <= '\u{000D}'
    ||| c == ' '
    ||| c == '\u{0085}'
    ||| c == '\u{00A0}'
    ||| c == '\u{1680}'
    ||| '\u{2000}' <= c <= '\u{200A}'
    ||| c == '\u{2028}'
    ||| c == '\u{2029}'
    ||| c == '\u{202F}'
    ||| c == '\u{205F}'
    ||| c == '\u{3000}'
}

pub fn white_space(c: char) -> (r: bool)
    ensures
        r == is_white_space(c),
{
    ('\u{0009}' <= c && c <= '\u{000D}') || c == ' ' || c == '\u{0085}' || c == '\u{00A0}'
        || c == '\u{1680}' || ('\u{2000}' <= c && c <= '\u{200A}') || c == '\u{2028}'
        || c == '\u{2029}' || c == '\u{202F}' || c == '\u{205F}' || c == '\u{3000}'
}

/// Index of the first non-white-space character at or after `from`.
pub open spec fn skip_ws_from(s: Seq<char>, from: int) -> int
    decreases s.len() - from,
{
    if from >= s.len() || !is_white_space(s[from]) {
        from
    } else {
        skip_ws_from(s, from + 1)
    }
}

/// One past the last non-white-space character before `to`.
pub open spec fn skip_ws_back(s: Seq<char>, lo: int, to: int) -> int
    decreases to - lo,
{
    if to <= lo || !is_white_space(s[to - 1]) {
        to
    } else {
        skip_ws_back(s, lo, to - 1)
    }
}

/// `str::trim`: the text without leading and trailing white space.
pub open spec fn trimmed(s: Seq<char>) -> Seq<char> {
    let lo = skip_ws_from(s, 0);
    s.subrange(lo, skip_ws_back(s, lo, s.len() as int))
}

pub proof fn lemma_skip_ws_from_bounds(s: Seq<char>, from: int)
    requires
        0 <= from <= s.len(),
    ensures
        from <= skip_ws_from(s, from) <= s.len(),
    decreases s.len() - from,
{
    if from < s.len() && is_white_space(s[from]) {
        lemma_skip_ws_from_bounds(s, from + 1);
    }
}

pub proof fn lemma_skip_ws_back_bounds(s: Seq<char>, lo: int, to: int)
    requires
        0 <= lo <= to <= s.len(),
    ensures
        lo <= skip_ws_back(s, lo, to) <= to,
    decreases to - lo,
{
    if to > lo && is_white_space(s[to - 1]) {
        lemma_skip_ws_back_bounds(s, lo, to - 1);
    }
}

/// Trims leading and trailing white space.
pub fn trim_chars(s: &[char]) -> (r: Vec<char>)
    ensures
        r@ == trimmed(s@),
{
    let mut lo: usize = 0;
    while lo < s.len() && white_space(s[lo])
        invariant
            lo <= s.len(),
            skip_ws_from(s@, lo as int) == skip_ws_from(s@, 0),
        decreases s.len() - lo,
    {
        lo = lo + 1;
    }
    let mut hi: usize = s.len();
    while hi > lo && white_space(s[hi - 1])
        invariant
            lo <= hi <= s.len(),
            skip_ws_back(s@, lo as int, hi as int) == skip_ws_back(s@, lo as int, s.len() as int),
        decreases hi - lo,
    {
        hi = hi - 1;
    }
    let mut out: Vec<char> = Vec::new();
    let mut k: usize = lo;
    while k < hi
        invariant
            lo <= k <= hi <= s.len(),
            out@ == s@.subrange(lo as int, k as int),
        decreases hi - k,
    {
        out.push(s[k]);
        k = k + 1;
        proof {
            assert(out@ =~= s@.subrange(lo as int, k as int));
        }
    }
    out
}

/// ASCII lower-casing of one character.
pub open spec fn lower_ascii(c: char) -> char {
    if 'A' <= c <= 'Z' {
        ((c as int) + 32) as char
    } else {
        c
    }
}

/// `to_ascii_lowercase` on a whole text.
pub open spec fn lower_ascii_all(s: Seq<char>) -> Seq<char> {
    Seq::new(s.len(), |i: int| lower_ascii(s[i]))
}

pub fn lower_ascii_char(c: char) -> (r: char)
    ensures
        r == lower_ascii(c),
{
    if 'A' <= c && c <= 'Z' {
        let v = (c as u32) + 32;
        match v {
            97 => 'a', 98 => 'b', 99 => 'c', 100 => 'd', 101 => 'e', 102 => 'f', 103 => 'g',
            104 => 'h', 105 => 'i', 106 => 'j', 107 => 'k', 108 => 'l', 109 => 'm', 110 => 'n',
            111 => 'o', 112 => 'p', 113 => 'q', 114 => 'r', 115 => 's', 116 => 't', 117 => 'u',
            118 => 'v', 119 => 'w', 120 => 'x', 121 => 'y', _ => 'z',
        }
    } else {
        c
    }
}

pub fn lower_ascii_chars(s: &[char]) -> (r: Vec<char>)
    ensures
        r@ == lower_ascii_all(s@),
{
    let mut out: Vec<char> = Vec::new();
    let mut k: usize = 0;
    while k < s.len()
        invariant
            k <= s.len(),
            out@ == lower_ascii_all(s@.take(k as int)),
        decreases s.len() - k,
    {
        out.push(lower_ascii_char(s[k]));
        k = k + 1;
        proof {
            assert(out@ =~= lower_ascii_all(s@.take(k as int)));
        }
    }
    proof {
        assert(s@.take(s@.len() as int) =~= s@);
    }
    out
}

/// `String::from_utf8_lossy` of a byte run.
pub uninterp spec fn lossy_text(b: Seq<u8>) -> Seq<char>;

/// The bytes read as ASCII characters.
pub open spec fn ascii_text(b: Seq<u8>) -> Seq<char> {
    Seq::new(b.len(), |i: int| b[i] as char)
}

/// `String::from_utf8_lossy(bytes).into_owned()`.
///
/// Claimed: the result is the named decoding of the bytes; bytes that are
/// all ASCII decode to the same characters (ASCII is valid UTF-8, which is
/// kept unchanged). Other inputs are only named.
#[verifier::external_body]
pub(crate) fn utf8_lossy(bytes: &[u8]) -> (r: String)
    ensures
        r@ == lossy_text(bytes@),
        (forall|i: int| 0 <= i < bytes@.len() ==> bytes@[i] < 128) ==> r@ == ascii_text(bytes@),
{
    String::from_utf8_lossy(bytes).into_owned()
}

} // verus!
