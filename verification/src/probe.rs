//! Dates reported by `ffprobe` for non-ISO-BMFF containers
//! (`.avi .mkv .wmv .flv .webm`): which tag wins and how its text is read.

use vstd::prelude::*;
use crate::types::{DateSource, LocalDateTime};
use crate::text::trimmed;
use crate::clock::{rfc3339_instant, offset_datetime_instant, placeable_instant};

verus! {

/// ISO date-time with fractional seconds and an offset.
pub open spec fn iso_fraction_format() -> Seq<char> {
    seq!['%', 'Y', '-', '%', 'm', '-', '%', 'd', 'T', '%', 'H', ':', '%', 'M', ':', '%', 'S', '%', '.', 'f', '%', 'z']
}

/// ISO date-time with an offset.
pub open spec fn iso_format() -> Seq<char> {
    seq!['%', 'Y', '-', '%', 'm', '-', '%', 'd', 'T', '%', 'H', ':', '%', 'M', ':', '%', 'S', '%', 'z']
}

/// The instant an ffprobe date text names, after trimming: RFC 3339, then
/// ISO with fractional seconds, then ISO without.
pub open spec fn iso_like_instant(s: Seq<char>) -> Option<(i64, u32)> {
    let t = trimmed(s);
    if t.len() == 0 {
        None
    } else {
        match rfc3339_instant(t) {
            Some(x) => Some(x),
            None => match offset_datetime_instant(t, iso_fraction_format()) {
                Some(x) => Some(x),
                None => offset_datetime_instant(t, iso_format()),
            },
        }
    }
}

/// Parses an ISO-like date text into a Unix timestamp and nanoseconds.
pub fn parse_iso_like(s: &str) -> (r: Option<(i64, u32)>)
    ensures
        r == iso_like_instant(s@),
        r matches Some((t, n)) ==> crate::clock::in_chrono_days(t as int) && n < 2_000_000_000,
{
    let cs = crate::text::chars_of(s);
    let t = crate::text::trim_chars(&cs);
    if t.len() == 0 {
        return None;
    }
    let ts = crate::text::string_of(&t);
    if let Some(x) = crate::clock::parse_rfc3339(ts.as_str()) {
        return Some(x);
    }
    let f1 = crate::text::string_of(
        &['%', 'Y', '-', '%', 'm', '-', '%', 'd', 'T', '%', 'H', ':', '%', 'M', ':', '%', 'S', '%', '.', 'f', '%', 'z'],
    );
    proof {
        assert(f1@ =~= iso_fraction_format());
    }
    if let Some(x) = crate::clock::parse_offset_datetime(ts.as_str(), f1.as_str()) {
        return Some(x);
    }
    let f2 = crate::text::string_of(
        &['%', 'Y', '-', '%', 'm', '-', '%', 'd', 'T', '%', 'H', ':', '%', 'M', ':', '%', 'S', '%', 'z'],
    );
    proof {
        assert(f2@ =~= iso_format());
    }
    crate::clock::parse_offset_datetime(ts.as_str(), f2.as_str())
}

/// `creation_time` wins over the QuickTime creation-date tag.
pub open spec fn probe_choice(
    qt_local: Option<LocalDateTime>,
    creation_local: Option<LocalDateTime>,
) -> Option<(LocalDateTime, DateSource)> {
    match creation_local {
        Some(t) => Some((t, DateSource::Ffprobe)),
        None => match qt_local {
            Some(t) => Some((t, DateSource::QuickTime)),
            None => None,
        },
    }
}

/// Picks the date of a video from the local times of its two ffprobe tags.
pub fn choose_probe_date(qt_local: Option<LocalDateTime>, creation_local: Option<LocalDateTime>) -> (r:
    Option<(LocalDateTime, DateSource)>)
    ensures
        r == probe_choice(qt_local, creation_local),
{
    match creation_local {
        Some(t) => Some((t, DateSource::Ffprobe)),
        None => match qt_local {
            Some(t) => Some((t, DateSource::QuickTime)),
            None => None,
        },
    }
}

/// Whether a tag's text names an instant that chrono can place in local
/// time (see `placeable_instant`).
pub open spec fn tag_placeable(tag: Option<&str>) -> bool {
    tag matches Some(s) && iso_like_instant(s@) matches Some((ts, ns)) && placeable_instant(ts as int, ns as int)
}

fn tag_local(tag: Option<&str>) -> (r: Option<LocalDateTime>)
    ensures
        tag is None ==> r is None,
        r is Some <==> tag_placeable(tag),
        tag matches Some(s) ==> (iso_like_instant(s@) is None ==> r is None),
        r matches Some(t) ==> tag is Some && iso_like_instant(tag.unwrap()@) == Some(
            (t.timestamp, t.local.nanosecond),
        ) && t.wf(),
{
    match tag {
        Some(s) => match parse_iso_like(s) {
            Some((ts, ns)) => crate::clock::local_from_timestamp(ts, ns),
            None => None,
        },
        None => None,
    }
}

/// The date of a video from the format tags ffprobe printed:
/// `creation_time`, then `com.apple.quicktime.creationdate`.
pub fn probe_date(qt_creationdate: Option<&str>, creation_time: Option<&str>) -> (r: Option<
    (LocalDateTime, DateSource),
>)
    ensures
        (qt_creationdate is None || iso_like_instant(qt_creationdate.unwrap()@) is None) && (
        creation_time is None || iso_like_instant(creation_time.unwrap()@) is None) ==> r is None,
        r matches Some((t, DateSource::QuickTime)) ==> qt_creationdate is Some && iso_like_instant(
            qt_creationdate.unwrap()@,
        ) == Some((t.timestamp, t.local.nanosecond)),
        r matches Some((t, DateSource::Ffprobe)) ==> creation_time is Some && iso_like_instant(
            creation_time.unwrap()@,
        ) == Some((t.timestamp, t.local.nanosecond)),
        r matches Some((t, src)) ==> (src == DateSource::QuickTime || src == DateSource::Ffprobe) && t.wf(),
        tag_placeable(creation_time) ==> r matches Some((_, DateSource::Ffprobe)),
        !tag_placeable(creation_time) && tag_placeable(qt_creationdate) ==> r matches Some(
            (_, DateSource::QuickTime),
        ),
        !tag_placeable(creation_time) && !tag_placeable(qt_creationdate) ==> r is None,
{
    let q = tag_local(qt_creationdate);
    let c = tag_local(creation_time);
    choose_probe_date(q, c)
}

} // verus!
