//! Date formatting for folders, display and grouping keys, and parsing of
//! date keys and EXIF timestamps.
//!
//! Folder format: `yyyy/M. MMM/Nth` (e.g. `2025/1. Jan/15th`)
//! Display format: `Nth MMM yyyy` (e.g. `15th Jan 2025`)
//! Date key: `yyyy-MM-dd`

use vstd::prelude::*;
use crate::types::{CivilDateTime, LocalDateTime};
use crate::text::{dec, int_text, int_text_padded, trimmed};
use crate::clock::{naive_date_parsed, naive_datetime_parsed, ymd_format, is_canonical_ymd, digits_value};

verus! {

pub open spec fn ordinal_suffix_of(day: int) -> Seq<char> {
    if 11 <= day <= 13 {
        seq!['t', 'h']
    } else if day % 10 == 1 {
        seq!['s', 't']
    } else if day % 10 == 2 {
        seq!['n', 'd']
    } else if day % 10 == 3 {
        seq!['r', 'd']
    } else {
        seq!['t', 'h']
    }
}

pub open spec fn day_with_ordinal_of(day: nat) -> Seq<char> {
    dec(day) + ordinal_suffix_of(day as int)
}

pub open spec fn month_short(m: int) -> Seq<char> {
    if m == 1 {
        seq!['J', 'a', 'n']
    } else if m == 2 {
        seq!['F', 'e', 'b']
    } else if m == 3 {
        seq!['M', 'a', 'r']
    } else if m == 4 {
        seq!['A', 'p', 'r']
    } else if m == 5 {
        seq!['M', 'a', 'y']
    } else if m == 6 {
        seq!['J', 'u', 'n']
    } else if m == 7 {
        seq!['J', 'u', 'l']
    } else if m == 8 {
        seq!['A', 'u', 'g']
    } else if m == 9 {
        seq!['S', 'e', 'p']
    } else if m == 10 {
        seq!['O', 'c', 't']
    } else if m == 11 {
        seq!['N', 'o', 'v']
    } else {
        seq!['D', 'e', 'c']
    }
}

/// `2025/1. Jan/15th`
pub open spec fn folder_of(d: LocalDateTime) -> Seq<char> {
    int_text(d.local.year as int) + seq!['/'] + dec(d.local.month as nat) + seq!['.', ' ']
        + month_short(d.local.month as int) + seq!['/'] + day_with_ordinal_of(d.local.day as nat)
}

/// `15th Jan 2025`
pub open spec fn display_of(d: LocalDateTime) -> Seq<char> {
    day_with_ordinal_of(d.local.day as nat) + seq![' '] + month_short(d.local.month as int)
        + seq![' '] + int_text(d.local.year as int)
}

/// `yyyy-MM-dd`
pub open spec fn date_key_of(d: LocalDateTime) -> Seq<char> {
    int_text_padded(d.local.year as int, 4) + seq!['-'] + int_text_padded(d.local.month as int, 2)
        + seq!['-'] + int_text_padded(d.local.day as int, 2)
}

/// Midnight of the day that a `YYYY-MM-DD` text spells.
pub open spec fn key_midnight(key: Seq<char>) -> CivilDateTime {
    CivilDateTime::midnight(
        digits_value(key, 0, 4) as i32,
        digits_value(key, 5, 7) as u32,
        digits_value(key, 8, 10) as u32,
    )
}

/// The EXIF timestamp format.
pub open spec fn exif_format() -> Seq<char> {
    seq!['%', 'Y', ':', '%', 'm', ':', '%', 'd', ' ', '%', 'H', ':', '%', 'M', ':', '%', 'S']
}

/// A zero-padded rendering of `v` (below `10^w`) is `w` digits that read
/// back as `v`.
proof fn lemma_padded_digits(v: nat, w: nat)
    requires
        v < crate::text::pow10(w),
        w >= 1,
    ensures
        int_text_padded(v as int, w).len() == w,
        forall|i: int| 0 <= i < w ==> '0' <= #[trigger] int_text_padded(v as int, w)[i] <= '9',
        digits_value(int_text_padded(v as int, w), 0, w as int) == v,
{
    let d = dec(v);
    crate::text::lemma_dec_len_le(v, w);
    crate::text::lemma_dec_digits(v);
    crate::clock::lemma_digits_value_dec(v);
    let z = Seq::new((w - d.len()) as nat, |i: int| '0');
    let s = int_text_padded(v as int, w);
    assert(s =~= z + d);
    let k = z.len() as int;
    assert forall|i: int| 0 <= i < w implies '0' <= #[trigger] s[i] <= '9' by {
        if i >= k {
            assert(s[i] == d[i - k]);
        }
    }
    crate::clock::lemma_digits_value_zeros(s, 0, k, w as int);
    crate::clock::lemma_digits_value_shift(s, k, d, 0, d.len() as int);
}

/// The date key of a day in the years 0 to 9999 has the shape
/// `YYYY-MM-DD` and spells that day, so `parse_date_key` can only give back
/// midnight of the very day the key was made from.
pub proof fn date_key_spells_date(d: LocalDateTime)
    requires
        d.wf(),
        0 <= d.local.year <= 9999,
    ensures
        is_canonical_ymd(date_key_of(d)),
        key_midnight(date_key_of(d)) == CivilDateTime::midnight(d.local.year, d.local.month, d.local.day),
        key_midnight(date_key_of(d)).valid(),
{
    assert(crate::text::pow10(0) == 1);
    assert(crate::text::pow10(1) == 10);
    assert(crate::text::pow10(2) == 100);
    assert(crate::text::pow10(3) == 1000);
    assert(crate::text::pow10(4) == 10000);
    let y = int_text_padded(d.local.year as int, 4);
    let m = int_text_padded(d.local.month as int, 2);
    let dd = int_text_padded(d.local.day as int, 2);
    lemma_padded_digits(d.local.year as nat, 4);
    lemma_padded_digits(d.local.month as nat, 2);
    lemma_padded_digits(d.local.day as nat, 2);
    let k = date_key_of(d);
    assert(k =~= y + seq!['-'] + m + seq!['-'] + dd);
    assert(k.len() == 10);
    assert forall|i: int| 0 <= i < 10 && i != 4 && i != 7 implies '0' <= #[trigger] k[i] <= '9' by {
        if i < 4 {
            assert(k[i] == y[i]);
        } else if i < 7 {
            assert(k[i] == m[i - 5]);
        } else {
            assert(k[i] == dd[i - 8]);
        }
    }
    crate::clock::lemma_digits_value_shift(k, 0, y, 0, 4);
    crate::clock::lemma_digits_value_shift(k, 5, m, 0, 2);
    crate::clock::lemma_digits_value_shift(k, 8, dd, 0, 2);
}

/// The English ordinal suffix of a day of the month.
pub fn ordinal_suffix(day: u32) -> (r: &'static str)
    ensures
        r@ == ordinal_suffix_of(day as int),
{
    proof {
        reveal_strlit("th");
        reveal_strlit("st");
        reveal_strlit("nd");
        reveal_strlit("rd");
        assert("th"@ =~= seq!['t', 'h']);
        assert("st"@ =~= seq!['s', 't']);
        assert("nd"@ =~= seq!['n', 'd']);
        assert("rd"@ =~= seq!['r', 'd']);
    }
    if 11 <= day && day <= 13 {
        "th"
    } else if day % 10 == 1 {
        "st"
    } else if day % 10 == 2 {
        "nd"
    } else if day % 10 == 3 {
        "rd"
    } else {
        "th"
    }
}

fn push_suffix(out: &mut Vec<char>, day: u32)
    ensures
        final(out)@ == old(out)@ + ordinal_suffix_of(day as int),
{
    let ghost start = out@;
    if 11 <= day && day <= 13 {
        out.push('t');
        out.push('h');
    } else if day % 10 == 1 {
        out.push('s');
        out.push('t');
    } else if day % 10 == 2 {
        out.push('n');
        out.push('d');
    } else if day % 10 == 3 {
        out.push('r');
        out.push('d');
    } else {
        out.push('t');
        out.push('h');
    }
    assert(out@ =~= start + ordinal_suffix_of(day as int));
}

fn push_day_with_ordinal(out: &mut Vec<char>, day: u32)
    ensures
        final(out)@ == old(out)@ + day_with_ordinal_of(day as nat),
{
    let ghost start = out@;
    crate::text::push_dec(out, day as u64);
    push_suffix(out, day);
    assert(out@ =~= start + day_with_ordinal_of(day as nat));
}

/// The day number followed by its ordinal suffix (`1st`, `22nd`, `13th`).
pub fn day_with_ordinal(day: u32) -> (r: String)
    ensures
        r@ == day_with_ordinal_of(day as nat),
{
    let mut v: Vec<char> = Vec::new();
    push_day_with_ordinal(&mut v, day);
    crate::text::string_of(&v)
}

fn push_month_short(out: &mut Vec<char>, m: u32)
    ensures
        final(out)@ == old(out)@ + month_short(m as int),
{
    let ghost start = out@;
    let (a, b, c) = match m {
        1 => ('J', 'a', 'n'),
        2 => ('F', 'e', 'b'),
        3 => ('M', 'a', 'r'),
        4 => ('A', 'p', 'r'),
        5 => ('M', 'a', 'y'),
        6 => ('J', 'u', 'n'),
        7 => ('J', 'u', 'l'),
        8 => ('A', 'u', 'g'),
        9 => ('S', 'e', 'p'),
        10 => ('O', 'c', 't'),
        11 => ('N', 'o', 'v'),
        _ => ('D', 'e', 'c'),
    };
    out.push(a);
    out.push(b);
    out.push(c);
    assert(out@ =~= start + month_short(m as int));
}

/// `2025/1. Jan/15th`
pub fn format_for_folder(date: &LocalDateTime) -> (r: String)
    requires
        date.wf(),
    ensures
        r@ == folder_of(*date),
{
    let mut v: Vec<char> = Vec::new();
    crate::text::push_int(&mut v, date.local.year as i64);
    v.push('/');
    crate::text::push_dec(&mut v, date.local.month as u64);
    v.push('.');
    v.push(' ');
    push_month_short(&mut v, date.local.month);
    v.push('/');
    push_day_with_ordinal(&mut v, date.local.day);
    assert(v@ =~= folder_of(*date));
    crate::text::string_of(&v)
}

/// `15th Jan 2025`
pub fn format_for_display(date: &LocalDateTime) -> (r: String)
    requires
        date.wf(),
    ensures
        r@ == display_of(*date),
{
    let mut v: Vec<char> = Vec::new();
    push_day_with_ordinal(&mut v, date.local.day);
    v.push(' ');
    push_month_short(&mut v, date.local.month);
    v.push(' ');
    crate::text::push_int(&mut v, date.local.year as i64);
    assert(v@ =~= display_of(*date));
    crate::text::string_of(&v)
}

/// `yyyy-MM-dd`
pub fn date_key(date: &LocalDateTime) -> (r: String)
    ensures
        r@ == date_key_of(*date),
{
    let mut v: Vec<char> = Vec::new();
    crate::text::push_int_padded(&mut v, date.local.year as i64, 4);
    v.push('-');
    crate::text::push_int_padded(&mut v, date.local.month as i64, 2);
    v.push('-');
    crate::text::push_int_padded(&mut v, date.local.day as i64, 2);
    assert(v@ =~= date_key_of(*date));
    crate::text::string_of(&v)
}

/// Parses a date key (`yyyy-MM-dd`) into midnight of that day in local
/// time.
///
/// `None` when the text is not a date in that format, or when local
/// midnight of that day does not exist or is ambiguous.
pub fn parse_date_key(key: &str) -> (r: Option<LocalDateTime>)
    ensures
        naive_date_parsed(key@, ymd_format()) is None ==> r is None,
        r matches Some(t) ==> naive_date_parsed(key@, ymd_format()) matches Some((y, m, d))
            && t.local == CivilDateTime::midnight(y, m, d) && t.wf(),
        // A canonical key that names a real day can only come back as that day.
        is_canonical_ymd(key@) && key_midnight(key@).valid() ==> (r matches Some(t)
            ==> t.local == key_midnight(key@)),
{
    let fmt = crate::text::string_of(&['%', 'Y', '-', '%', 'm', '-', '%', 'd']);
    proof {
        assert(fmt@ =~= ymd_format());
    }
    let parsed = crate::clock::parse_naive_date(key, fmt.as_str());
    match parsed {
        None => None,
        Some((y, m, d)) => {
            let c = CivilDateTime { year: y, month: m, day: d, hour: 0, minute: 0, second: 0, nanosecond: 0 };
            crate::clock::local_from_civil(c)
        },
    }
}

/// Parses the EXIF date format `YYYY:MM:DD HH:MM:SS`, after trimming white
/// space, as a local wall-clock time.
///
/// EXIF timestamps carry no time zone; they are read as local time.
pub fn parse_exif_date(s: &str) -> (r: Option<LocalDateTime>)
    ensures
        trimmed(s@).len() == 0 ==> r is None,
        naive_datetime_parsed(trimmed(s@), exif_format()) is None ==> r is None,
        r matches Some(t) ==> trimmed(s@).len() > 0
            && naive_datetime_parsed(trimmed(s@), exif_format()) == Some(t.local) && t.wf(),
{
    let cs = crate::text::chars_of(s);
    let t = crate::text::trim_chars(&cs);
    if t.len() == 0 {
        return None;
    }
    let ts = crate::text::string_of(&t);
    let fmt = crate::text::string_of(
        &['%', 'Y', ':', '%', 'm', ':', '%', 'd', ' ', '%', 'H', ':', '%', 'M', ':', '%', 'S'],
    );
    proof {
        assert(fmt@ =~= exif_format());
    }
    match crate::clock::parse_naive_datetime(ts.as_str(), fmt.as_str()) {
        None => None,
        Some(c) => crate::clock::local_from_civil(c),
    }
}

/// The English ordinal suffix of a day: `th` for the 11th, 12th and 13th;
/// otherwise `st`, `nd` or `rd` after a last digit 1, 2 or 3, and `th`
/// after any other.
pub open spec fn english_suffix(day: int) -> Seq<char> {
    if 11 <= day && day <= 13 {
        "th"@
    } else if day % 10 == 1 {
        "st"@
    } else if day % 10 == 2 {
        "nd"@
    } else if day % 10 == 3 {
        "rd"@
    } else {
        "th"@
    }
}

/// The three-letter English month names, January first.
pub open spec fn english_months() -> Seq<Seq<char>> {
    seq!["Jan"@, "Feb"@, "Mar"@, "Apr"@, "May"@, "Jun"@, "Jul"@, "Aug"@, "Sep"@, "Oct"@, "Nov"@, "Dec"@]
}

proof fn lemma_ordinal_english(day: int)
    ensures
        ordinal_suffix_of(day) == english_suffix(day),
{
    reveal_strlit("th");
    reveal_strlit("st");
    reveal_strlit("nd");
    reveal_strlit("rd");
    assert("th"@ =~= seq!['t', 'h']);
    assert("st"@ =~= seq!['s', 't']);
    assert("nd"@ =~= seq!['n', 'd']);
    assert("rd"@ =~= seq!['r', 'd']);
}

proof fn lemma_month_english(m: int)
    requires
        1 <= m <= 12,
    ensures
        month_short(m) == english_months()[m - 1],
{
    reveal_strlit("Jan");
    reveal_strlit("Feb");
    reveal_strlit("Mar");
    reveal_strlit("Apr");
    reveal_strlit("May");
    reveal_strlit("Jun");
    reveal_strlit("Jul");
    reveal_strlit("Aug");
    reveal_strlit("Sep");
    reveal_strlit("Oct");
    reveal_strlit("Nov");
    reveal_strlit("Dec");
    let t = english_months();
    if m == 1 { assert(t[0] =~= seq!['J', 'a', 'n']); }
    else if m == 2 { assert(t[1] =~= seq!['F', 'e', 'b']); }
    else if m == 3 { assert(t[2] =~= seq!['M', 'a', 'r']); }
    else if m == 4 { assert(t[3] =~= seq!['A', 'p', 'r']); }
    else if m == 5 { assert(t[4] =~= seq!['M', 'a', 'y']); }
    else if m == 6 { assert(t[5] =~= seq!['J', 'u', 'n']); }
    else if m == 7 { assert(t[6] =~= seq!['J', 'u', 'l']); }
    else if m == 8 { assert(t[7] =~= seq!['A', 'u', 'g']); }
    else if m == 9 { assert(t[8] =~= seq!['S', 'e', 'p']); }
    else if m == 10 { assert(t[9] =~= seq!['O', 'c', 't']); }
    else if m == 11 { assert(t[10] =~= seq!['N', 'o', 'v']); }
    else { assert(t[11] =~= seq!['D', 'e', 'c']); }
}

/// A day's ordinal text is its number followed by its English suffix, so
/// the 11th, 12th and 13th end in `th` and the 1st, 22nd and 33rd do not.
pub proof fn day_ordinal_is_english(day: nat)
    ensures
        ordinal_suffix_of(day as int) == english_suffix(day as int),
        day_with_ordinal_of(day) == dec(day) + english_suffix(day as int),
{
    lemma_ordinal_english(day as int);
}

/// The folder of a day is `year/M. Mon/Nth`: the year, the month number
/// with its English name, and the day number with its English ordinal
/// suffix.
pub proof fn folder_names_the_day(d: LocalDateTime)
    requires
        d.wf(),
    ensures
        folder_of(d) == int_text(d.local.year as int) + "/"@ + dec(d.local.month as nat) + ". "@
            + english_months()[d.local.month - 1] + "/"@ + dec(d.local.day as nat) + english_suffix(
            d.local.day as int,
        ),
{
    reveal_strlit("/");
    reveal_strlit(". ");
    lemma_ordinal_english(d.local.day as int);
    lemma_month_english(d.local.month as int);
    assert(folder_of(d) =~= int_text(d.local.year as int) + "/"@ + dec(d.local.month as nat) + ". "@
        + english_months()[d.local.month - 1] + "/"@ + dec(d.local.day as nat) + english_suffix(d.local.day as int));
}

/// The display name of a day is `Nth Mon year`: the day number with its
/// English ordinal suffix, the month's English name and the year.
pub proof fn display_names_the_day(d: LocalDateTime)
    requires
        d.wf(),
    ensures
        display_of(d) == dec(d.local.day as nat) + english_suffix(d.local.day as int) + " "@
            + english_months()[d.local.month - 1] + " "@ + int_text(d.local.year as int),
{
    reveal_strlit(" ");
    lemma_ordinal_english(d.local.day as int);
    lemma_month_english(d.local.month as int);
    assert(display_of(d) =~= dec(d.local.day as nat) + english_suffix(d.local.day as int) + " "@
        + english_months()[d.local.month - 1] + " "@ + int_text(d.local.year as int));
}

} // verus!
