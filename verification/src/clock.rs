//! The calls into `chrono`: parsing date text and placing wall-clock times
//! and Unix timestamps in the machine's local time zone.

use vstd::prelude::*;
use crate::types::{CivilDateTime, LocalDateTime};
use crate::text::dec;
use chrono::{DateTime, Datelike, Local, NaiveDate, NaiveDateTime, TimeZone, Timelike};

verus! {

/// What `NaiveDate::parse_from_str(s, fmt)` yields, as (year, month, day).
pub uninterp spec fn naive_date_parsed(s: Seq<char>, fmt: Seq<char>) -> Option<(i32, u32, u32)>;

/// What `NaiveDateTime::parse_from_str(s, fmt)` yields.
pub uninterp spec fn naive_datetime_parsed(s: Seq<char>, fmt: Seq<char>) -> Option<CivilDateTime>;

/// What `DateTime::parse_from_rfc3339(s)` yields, as the instant's Unix
/// timestamp and sub-second nanoseconds.
pub uninterp spec fn rfc3339_instant(s: Seq<char>) -> Option<(i64, u32)>;

/// What `DateTime::parse_from_str(s, fmt)` yields, as the instant's Unix
/// timestamp and sub-second nanoseconds.
pub uninterp spec fn offset_datetime_instant(s: Seq<char>, fmt: Seq<char>) -> Option<(i64, u32)>;

/// The format of date keys.
pub open spec fn ymd_format() -> Seq<char> {
    seq!['%', 'Y', '-', '%', 'm', '-', '%', 'd']
}

/// Four digits, `-`, two digits, `-`, two digits.
pub open spec fn is_canonical_ymd(s: Seq<char>) -> bool {
    &&& s.len() == 10
    &&& s[4] == '-'
    &&& s[7] == '-'
    &&& forall|i: int| 0 <= i < 10 && i != 4 && i != 7 ==> '0' <= #[trigger] s[i] <= '9'
}

pub open spec fn digits_value(s: Seq<char>, lo: int, hi: int) -> int
    decreases hi - lo,
{
    if hi <= lo {
        0
    } else {
        digits_value(s, lo, hi - 1) * 10 + (s[hi - 1] as int - 48)
    }
}

/// The value of the digits at `lo..hi` only depends on those characters.
pub proof fn lemma_digits_value_shift(s1: Seq<char>, lo1: int, s2: Seq<char>, lo2: int, k: int)
    requires
        k >= 0,
        forall|i: int| lo1 <= i < lo1 + k ==> #[trigger] s1[i] == s2[i - lo1 + lo2],
    ensures
        digits_value(s1, lo1, lo1 + k) == digits_value(s2, lo2, lo2 + k),
    decreases k,
{
    if k > 0 {
        lemma_digits_value_shift(s1, lo1, s2, lo2, k - 1);
        assert(s1[lo1 + k - 1] == s2[lo1 + k - 1 - lo1 + lo2]);
    }
}

/// Leading zeros do not change the value.
pub proof fn lemma_digits_value_zeros(s: Seq<char>, lo: int, m: int, hi: int)
    requires
        lo <= m <= hi,
        forall|i: int| lo <= i < m ==> s[i] == '0',
    ensures
        digits_value(s, lo, hi) == digits_value(s, m, hi),
    decreases hi - lo,
{
    if hi > m {
        lemma_digits_value_zeros(s, lo, m, hi - 1);
    } else if hi > lo {
        lemma_digits_value_zeros(s, lo, hi - 1, hi - 1);
        assert(s[hi - 1] == '0');
    }
}

/// The decimal rendering of `n` reads back as `n`.
pub proof fn lemma_digits_value_dec(n: nat)
    ensures
        digits_value(dec(n), 0, dec(n).len() as int) == n,
    decreases n,
{
    if n >= 10 {
        let p = dec(n / 10);
        lemma_digits_value_dec(n / 10);
        let s = dec(n);
        assert(s == p.push(crate::text::digit_char((n % 10) as int)));
        assert forall|i: int| 0 <= i < 0 + p.len() implies #[trigger] s[i] == p[i - 0 + 0] by {
            assert(s[i] == p[i]);
        }
        lemma_digits_value_shift(s, 0, p, 0, p.len() as int);
        crate::text::lemma_digit_char_value((n % 10) as int);
        assert(s[s.len() - 1] as int - 48 == n % 10);
        assert(digits_value(s, 0, s.len() as int) == digits_value(s, 0, p.len() as int) * 10 + (
        s[s.len() - 1] as int - 48));
        assert((n / 10) * 10 + n % 10 == n);
    } else {
        assert(dec(n) == seq![crate::text::digit_char(n as int)]);
        crate::text::lemma_digit_char_value(n as int);
        assert(dec(n)[0] as int - 48 == n);
        assert(digits_value(dec(n), 0, 0) == 0);
        assert(dec(n).len() == 1);
    }
}

/// `NaiveDate::parse_from_str` for a format.
///
/// Claimed: a parsed date is a real calendar date within chrono's year
/// range; and, with the format `%Y-%m-%d`, text of the canonical shape
/// `YYYY-MM-DD` naming a real date parses to exactly that date (the
/// numeric fields read their digits and the literals match the dashes).
/// Nothing is said of other texts beyond naming the result.
#[verifier::external_body]
pub(crate) fn parse_naive_date(s: &str, fmt: &str) -> (r: Option<(i32, u32, u32)>)
    ensures
        r == naive_date_parsed(s@, fmt@),
        r matches Some((y, m, d)) ==> CivilDateTime::midnight(y, m, d).representable(),
        fmt@ == ymd_format() && is_canonical_ymd(s@) && CivilDateTime::midnight(
            digits_value(s@, 0, 4) as i32,
            digits_value(s@, 5, 7) as u32,
            digits_value(s@, 8, 10) as u32,
        ).valid() ==> r == Some(
            (
                digits_value(s@, 0, 4) as i32,
                digits_value(s@, 5, 7) as u32,
                digits_value(s@, 8, 10) as u32,
            ),
        ),
{
    match NaiveDate::parse_from_str(s, fmt) {
        Ok(d) => Some((d.year(), d.month(), d.day())),
        Err(_) => None,
    }
}

/// `NaiveDateTime::parse_from_str` for a format.
///
/// Claimed: a parsed value is a date and time that chrono can represent.
#[verifier::external_body]
pub(crate) fn parse_naive_datetime(s: &str, fmt: &str) -> (r: Option<CivilDateTime>)
    ensures
        r == naive_datetime_parsed(s@, fmt@),
        r matches Some(c) ==> c.representable(),
{
    match NaiveDateTime::parse_from_str(s, fmt) {
        Ok(t) => Some(CivilDateTime {
            year: t.year(), month: t.month(), day: t.day(), hour: t.hour(),
            minute: t.minute(), second: t.second(), nanosecond: t.nanosecond(),
        }),
        Err(_) => None,
    }
}

/// `DateTime::parse_from_rfc3339`, reduced to the instant it names.
///
/// Claimed: the result is the named one; its nanoseconds stay below two
/// seconds, as for every chrono time; and its UTC day lies within chrono's
/// dates (the parsed value is built by `from_local_datetime`, whose
/// `checked_sub_offset` refuses a UTC date outside them).
#[verifier::external_body]
pub(crate) fn parse_rfc3339(s: &str) -> (r: Option<(i64, u32)>)
    ensures
        r == rfc3339_instant(s@),
        r matches Some((_, n)) ==> n < 2_000_000_000,
        r matches Some((t, _)) ==> in_chrono_days(t as int),
{
    match DateTime::parse_from_rfc3339(s) {
        Ok(t) => Some((t.timestamp(), t.timestamp_subsec_nanos())),
        Err(_) => None,
    }
}

/// `DateTime::parse_from_str` (text with a UTC offset), reduced to the
/// instant it names.
///
/// Claimed: the result is the named one; its nanoseconds stay below two
/// seconds; and its UTC day lies within chrono's dates (as for
/// `parse_rfc3339`, through `Parsed::to_datetime`).
#[verifier::external_body]
pub(crate) fn parse_offset_datetime(s: &str, fmt: &str) -> (r: Option<(i64, u32)>)
    ensures
        r == offset_datetime_instant(s@, fmt@),
        r matches Some((_, n)) ==> n < 2_000_000_000,
        r matches Some((t, _)) ==> in_chrono_days(t as int),
{
    match DateTime::parse_from_str(s, fmt) {
        Ok(t) => Some((t.timestamp(), t.timestamp_subsec_nanos())),
        Err(_) => None,
    }
}

/// `Local.from_local_datetime(..).single()`: the instant at which the local
/// clock shows `c`.
///
/// Claimed: a result shows exactly `c` on the local clock. Whether there is
/// a result depends on the machine's time zone (a wall-clock time skipped or
/// repeated by a clock change has none), so nothing is said about when it is
/// `None`, nor about the timestamp.
#[verifier::external_body]
pub(crate) fn local_from_civil(c: CivilDateTime) -> (r: Option<LocalDateTime>)
    requires
        c.representable(),
    ensures
        r matches Some(t) ==> t.local == c,
{
    let date = NaiveDate::from_ymd_opt(c.year, c.month, c.day)?;
    let naive = date.and_hms_nano_opt(c.hour, c.minute, c.second, c.nanosecond)?;
    let t = Local.from_local_datetime(&naive).single()?;
    Some(LocalDateTime { local: c, timestamp: t.timestamp() })
}

/// Unix timestamps (whole seconds) whose UTC day lies within chrono's
/// dates, `-262143-01-01` to `262142-12-31`.
pub open spec fn in_chrono_days(secs: int) -> bool {
    -8_334_601_228_800 <= secs <= 8_210_266_876_799
}

/// What `DateTime::from_timestamp(secs, nanos)` accepts: a day within
/// chrono's dates, and less than a second of nanoseconds, or less than two
/// in the last second of a minute (a leap second).
pub open spec fn placeable_instant(secs: int, nanos: int) -> bool {
    &&& in_chrono_days(secs)
    &&& 0 <= nanos < 2_000_000_000
    &&& nanos >= 1_000_000_000 ==> secs % 60 == 59
}

/// `Local.timestamp_opt(secs, nanos).single()`: the local wall-clock reading
/// of a Unix timestamp.
///
/// Claimed: a result has that timestamp and those nanoseconds, and its
/// reading is a real calendar day and time of day; and there is a result
/// exactly for the placeable instants. `timestamp_opt` gives `None` exactly
/// when `DateTime::from_timestamp` does (its day outside chrono's dates, or
/// its nanoseconds refused by `NaiveTime::from_num_seconds_from_midnight_opt`),
/// and otherwise a single local time, since a UTC instant has one local
/// reading. The reading itself depends on the machine's time zone and is
/// not stated.
#[verifier::external_body]
pub(crate) fn local_from_timestamp(secs: i64, nanos: u32) -> (r: Option<LocalDateTime>)
    ensures
        r matches Some(t) ==> t.timestamp == secs && t.local.nanosecond == nanos && t.wf(),
        r is Some <==> placeable_instant(secs as int, nanos as int),
{
    let t = Local.timestamp_opt(secs, nanos).single()?;
    let local = CivilDateTime {
        year: t.year(), month: t.month(), day: t.day(), hour: t.hour(),
        minute: t.minute(), second: t.second(), nanosecond: t.nanosecond(),
    };
    Some(LocalDateTime { local, timestamp: t.timestamp() })
}

} // verus!
