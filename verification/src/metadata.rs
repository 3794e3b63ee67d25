//! Choosing each file's capture date, in the priority the sorter uses:
//!   * images   : EXIF (`DateTimeOriginal -> DateTimeDigitized -> DateTime`) → fs
//!   * mp4/mov  : QuickTime keys → mvhd → fs
//!   * other vid: ffprobe (qt key, creation_time) → fs
//!
//! Files for which neither the metadata nor a usable filesystem timestamp
//! gives a date are kept apart as unsortable, with a reason.

use vstd::prelude::*;
use crate::types::{DateSource, LocalDateTime, MediaFile, MediaMeta, MediaType, UnsortableMedia};
use crate::extensions::{mp4parse_exts, ffprobe_exts};
use crate::date_format::exif_format;
use crate::text::trimmed;
use crate::clock::{naive_datetime_parsed, placeable_instant};

verus! {

/// Which reader looks for a file's embedded date.
#[derive(Debug, Clone, Copy, PartialEq, Eq, Structural)]
pub enum Extractor {
    Exif,
    Mp4,
    Ffprobe,
    NoExtractor,
}

pub open spec fn extractor_of(file: MediaFile) -> Extractor {
    match file.media_type {
        MediaType::Image => Extractor::Exif,
        MediaType::Video => if mp4parse_exts().contains(file.extension@) {
            Extractor::Mp4
        } else if ffprobe_exts().contains(file.extension@) {
            Extractor::Ffprobe
        } else {
            Extractor::NoExtractor
        },
    }
}

/// The reader for a file's embedded date.
pub fn extractor_for(file: &MediaFile) -> (r: Extractor)
    ensures
        r == extractor_of(*file),
{
    match file.media_type {
        MediaType::Image => Extractor::Exif,
        MediaType::Video => if crate::extensions::uses_mp4parse(file.extension.as_str()) {
            Extractor::Mp4
        } else if crate::extensions::uses_ffprobe(file.extension.as_str()) {
            Extractor::Ffprobe
        } else {
            Extractor::NoExtractor
        },
    }
}

/// Whether an EXIF tag text reads as a date.
pub open spec fn exif_tag_parses(tag: Option<&str>) -> bool {
    match tag {
        Some(s) => trimmed(s@).len() > 0 && naive_datetime_parsed(trimmed(s@), exif_format()) is Some,
        None => false,
    }
}

/// The EXIF date of an image from the ASCII texts of its
/// `DateTimeOriginal`, `DateTimeDigitized` and `DateTime` fields
/// (`YYYY:MM:DD HH:MM:SS`): the first that reads as a local date wins.
pub fn choose_exif_date(original: Option<&str>, digitized: Option<&str>, datetime: Option<&str>) -> (r:
    Option<(LocalDateTime, DateSource)>)
    ensures
        !exif_tag_parses(original) && !exif_tag_parses(digitized) && !exif_tag_parses(datetime)
            ==> r is None,
        r matches Some((t, src)) ==> src == DateSource::Exif && t.wf() && (
        exists_tag_reading(original, t) || exists_tag_reading(digitized, t) || exists_tag_reading(
            datetime,
            t,
        )),
{
    let a = exif_tag_local(original);
    let b = exif_tag_local(digitized);
    let c = exif_tag_local(datetime);
    first_exif_date(a, b, c)
}

fn exif_tag_local(tag: Option<&str>) -> (r: Option<LocalDateTime>)
    ensures
        !exif_tag_parses(tag) ==> r is None,
        r matches Some(t) ==> exists_tag_reading(tag, t) && t.wf(),
{
    match tag {
        Some(s) => crate::date_format::parse_exif_date(s),
        None => None,
    }
}

pub open spec fn exif_choice(
    original: Option<LocalDateTime>,
    digitized: Option<LocalDateTime>,
    datetime: Option<LocalDateTime>,
) -> Option<(LocalDateTime, DateSource)> {
    if original is Some {
        Some((original.unwrap(), DateSource::Exif))
    } else if digitized is Some {
        Some((digitized.unwrap(), DateSource::Exif))
    } else if datetime is Some {
        Some((datetime.unwrap(), DateSource::Exif))
    } else {
        None
    }
}

/// The EXIF date from the local readings of the three date fields, in
/// priority order.
pub fn first_exif_date(
    original: Option<LocalDateTime>,
    digitized: Option<LocalDateTime>,
    datetime: Option<LocalDateTime>,
) -> (r: Option<(LocalDateTime, DateSource)>)
    ensures
        r == exif_choice(original, digitized, datetime),
{
    if let Some(t) = original {
        return Some((t, DateSource::Exif));
    }
    if let Some(t) = digitized {
        return Some((t, DateSource::Exif));
    }
    if let Some(t) = datetime {
        return Some((t, DateSource::Exif));
    }
    None
}

/// `t` is the local reading of the date in `tag`.
pub open spec fn exists_tag_reading(tag: Option<&str>, t: LocalDateTime) -> bool {
    match tag {
        Some(s) => naive_datetime_parsed(trimmed(s@), exif_format()) == Some(t.local),
        None => false,
    }
}

/// The local time of a filesystem timestamp given as seconds and
/// nanoseconds since the Unix epoch (the seconds are reinterpreted as a
/// signed 64-bit value).
pub fn system_to_local(secs: u64, nanos: u32) -> (r: Option<LocalDateTime>)
    ensures
        r matches Some(t) ==> t.timestamp == secs as i64 && t.local.nanosecond == nanos && t.wf(),
        r is Some <==> placeable_instant(secs as i64 as int, nanos as int),
{
    crate::clock::local_from_timestamp(secs as i64, nanos)
}

/// The filesystem fallback: the birth time when it is after the epoch,
/// else the modification time when it is after the epoch.
pub open spec fn fs_choice(
    birth: Option<LocalDateTime>,
    modified: Option<LocalDateTime>,
) -> Option<(LocalDateTime, DateSource)> {
    if birth matches Some(b) && b.timestamp > 0 {
        Some((birth.unwrap(), DateSource::FileBirthtime))
    } else if modified matches Some(m) && m.timestamp > 0 {
        Some((modified.unwrap(), DateSource::FileMtime))
    } else {
        None
    }
}

/// Picks the filesystem date of a file from its birth and modification
/// times (already in local time). `None` only when neither is usable, so
/// that nothing is silently dated 1970-01-01.
pub fn filesystem_date(birth: Option<LocalDateTime>, modified: Option<LocalDateTime>) -> (r: Option<
    (LocalDateTime, DateSource),
>)
    ensures
        r == fs_choice(birth, modified),
{
    if let Some(b) = birth {
        if b.timestamp > 0 {
            return Some((b, DateSource::FileBirthtime));
        }
    }
    if let Some(m) = modified {
        if m.timestamp > 0 {
            return Some((m, DateSource::FileMtime));
        }
    }
    None
}

pub open spec fn reason_kind_of(file: MediaFile) -> Seq<char> {
    match extractor_of(file) {
        Extractor::Exif => "no EXIF date in image"@,
        Extractor::Mp4 => "no creation date in MP4/MOV/M4V/3GP container"@,
        Extractor::Ffprobe => "ffprobe could not read a creation date (or ffprobe is not installed)"@,
        Extractor::NoExtractor => "no metadata extractor available for this video format"@,
    }
}

pub open spec fn unsortable_reason_of(file: MediaFile) -> Seq<char> {
    reason_kind_of(file) + "; filesystem birth/modify timestamps are also unreadable or zero"@
}

/// Why a file could not be dated.
pub fn unsortable_reason(file: &MediaFile) -> (r: String)
    ensures
        r@ == unsortable_reason_of(*file),
{
    let mut v: Vec<char> = Vec::new();
    match extractor_for(file) {
        Extractor::Exif => crate::text::push_str(&mut v, "no EXIF date in image"),
        Extractor::Mp4 => crate::text::push_str(&mut v, "no creation date in MP4/MOV/M4V/3GP container"),
        Extractor::Ffprobe => crate::text::push_str(
            &mut v,
            "ffprobe could not read a creation date (or ffprobe is not installed)",
        ),
        Extractor::NoExtractor => crate::text::push_str(
            &mut v,
            "no metadata extractor available for this video format",
        ),
    }
    crate::text::push_str(&mut v, "; filesystem birth/modify timestamps are also unreadable or zero");
    assert(v@ =~= unsortable_reason_of(*file));
    crate::text::string_of(&v)
}

/// The outcome for one file: its embedded date if one was found, else the
/// filesystem date, else unsortable with the reason.
pub fn resolve_meta(
    file: MediaFile,
    embedded: Option<(LocalDateTime, DateSource)>,
    filesystem: Option<(LocalDateTime, DateSource)>,
) -> (r: Result<MediaMeta, UnsortableMedia>)
    ensures
        embedded matches Some((d, s)) ==> r == Ok::<MediaMeta, UnsortableMedia>(
            MediaMeta { file, created_date: d, date_source: s },
        ),
        embedded is None ==> (filesystem matches Some((d, s)) ==> r == Ok::<MediaMeta, UnsortableMedia>(
            MediaMeta { file, created_date: d, date_source: s },
        )),
        embedded is None && filesystem is None ==> (r matches Err(u) && u.file == file && u.reason@
            == unsortable_reason_of(file)),
{
    if let Some((created_date, date_source)) = embedded {
        return Ok(MediaMeta { file, created_date, date_source });
    }
    if let Some((created_date, date_source)) = filesystem {
        return Ok(MediaMeta { file, created_date, date_source });
    }
    let reason = unsortable_reason(&file);
    Err(UnsortableMedia { reason, file })
}

/// Dated files and unsortable files, each in input order.
#[derive(Debug, Default)]
pub struct ExtractResult {
    pub metas: Vec<MediaMeta>,
    pub unsortable: Vec<UnsortableMedia>,
}

pub open spec fn oks(v: Seq<Result<MediaMeta, UnsortableMedia>>) -> Seq<MediaMeta>
    decreases v.len(),
{
    if v.len() == 0 {
        Seq::empty()
    } else {
        match v.last() {
            Ok(m) => oks(v.drop_last()).push(m),
            Err(_) => oks(v.drop_last()),
        }
    }
}

pub open spec fn errs(v: Seq<Result<MediaMeta, UnsortableMedia>>) -> Seq<UnsortableMedia>
    decreases v.len(),
{
    if v.len() == 0 {
        Seq::empty()
    } else {
        match v.last() {
            Ok(_) => errs(v.drop_last()),
            Err(u) => errs(v.drop_last()).push(u),
        }
    }
}

/// Splits per-file outcomes into dated and unsortable files, keeping order.
pub fn collect_results(outcomes: Vec<Result<MediaMeta, UnsortableMedia>>) -> (r: ExtractResult)
    ensures
        r.metas@ == oks(outcomes@),
        r.unsortable@ == errs(outcomes@),
        r.metas@.len() + r.unsortable@.len() == outcomes@.len(),
{
    let ghost all = outcomes@;
    let mut metas: Vec<MediaMeta> = Vec::new();
    let mut unsortable: Vec<UnsortableMedia> = Vec::new();
    let mut rest = outcomes;
    // Reverse once so that popping yields the outcomes front to back.
    let mut reversed: Vec<Result<MediaMeta, UnsortableMedia>> = Vec::new();
    while rest.len() > 0
        invariant
            all == rest@ + reversed@.reverse(),
        decreases rest.len(),
    {
        let x = rest.pop().unwrap();
        let ghost before = reversed@;
        reversed.push(x);
        proof {
            assert(reversed@.reverse() =~= seq![x] + before.reverse());
            assert(all =~= rest@ + reversed@.reverse());
        }
    }
    let ghost mut taken: Seq<Result<MediaMeta, UnsortableMedia>> = Seq::empty();
    proof {
        assert(all =~= taken + reversed@.reverse());
    }
    while reversed.len() > 0
        invariant
            all == taken + reversed@.reverse(),
            metas@ == oks(taken),
            unsortable@ == errs(taken),
            metas@.len() + unsortable@.len() == taken.len(),
        decreases reversed.len(),
    {
        let x = reversed.pop().unwrap();
        let ghost before = taken;
        let ghost rev_before = reversed@.push(x);
        proof {
            taken = taken.push(x);
            assert(taken.drop_last() =~= before);
            assert(rev_before.reverse() =~= seq![x] + reversed@.reverse());
            assert(all =~= taken + reversed@.reverse());
        }
        match x {
            Ok(m) => {
                metas.push(m);
            },
            Err(u) => {
                unsortable.push(u);
            },
        }
    }
    proof {
        assert(all =~= taken);
    }
    ExtractResult { metas, unsortable }
}

/// Hooks that the metadata phase calls for each file; both do nothing
/// unless overridden.
pub trait MetadataProgress {
    fn on_completed(&self, meta: &MediaMeta) {
    }

    fn on_unsortable(&self, file: &UnsortableMedia) {
    }
}

/// Progress hooks that do nothing.
pub struct NoopProgress;

impl MetadataProgress for NoopProgress {
}

} // verus!
