//! Shared types: media kinds, date sources, the date model and the records
//! that flow from scanning to copying.

use vstd::prelude::*;

verus! {

#[derive(Debug, Clone, Copy, PartialEq, Eq, Structural)]
pub enum MediaType {
    Image,
    Video,
}

/// Where a file's capture date came from.
#[derive(Debug, Clone, Copy, PartialEq, Eq, Hash, Structural)]
pub enum DateSource {
    Exif,
    QuickTime,
    Mp4Box,
    Ffprobe,
    FileBirthtime,
    FileMtime,
}

pub open spec fn source_label(s: DateSource) -> Seq<char> {
    match s {
        DateSource::Exif => seq!['E', 'X', 'I', 'F'],
        DateSource::QuickTime => seq!['Q', 'u', 'i', 'c', 'k', 'T', 'i', 'm', 'e'],
        DateSource::Mp4Box => seq!['M', 'P', '4', 'b', 'o', 'x'],
        DateSource::Ffprobe => seq!['f', 'f', 'p', 'r', 'o', 'b', 'e'],
        DateSource::FileBirthtime => seq!['f', 's', '-', 'b', 'i', 'r', 't', 'h', 't', 'i', 'm', 'e'],
        DateSource::FileMtime => seq!['f', 's', '-', 'm', 't', 'i', 'm', 'e'],
    }
}

impl DateSource {
    /// Short human label of the source.
    pub fn label(self) -> (r: &'static str)
        ensures
            r@ == source_label(self),
    {
        proof {
            reveal_strlit("EXIF");
            reveal_strlit("QuickTime");
            reveal_strlit("MP4box");
            reveal_strlit("ffprobe");
            reveal_strlit("fs-birthtime");
            reveal_strlit("fs-mtime");
            assert("EXIF"@ =~= source_label(DateSource::Exif));
            assert("QuickTime"@ =~= source_label(DateSource::QuickTime));
            assert("MP4box"@ =~= source_label(DateSource::Mp4Box));
            assert("ffprobe"@ =~= source_label(DateSource::Ffprobe));
            assert("fs-birthtime"@ =~= source_label(DateSource::FileBirthtime));
            assert("fs-mtime"@ =~= source_label(DateSource::FileMtime));
        }
        match self {
            DateSource::Exif => "EXIF",
            DateSource::QuickTime => "QuickTime",
            DateSource::Mp4Box => "MP4box",
            DateSource::Ffprobe => "ffprobe",
            DateSource::FileBirthtime => "fs-birthtime",
            DateSource::FileMtime => "fs-mtime",
        }
    }
}

/// Smallest and largest calendar years that `chrono` dates can hold.
pub const MIN_YEAR: i32 = -262143;
pub const MAX_YEAR: i32 = 262142;

pub open spec fn is_leap_year(y: int) -> bool {
    (y % 4 == 0 && y % 100 != 0) || y % 400 == 0
}

pub open spec fn days_in_month(y: int, m: int) -> int {
    if m == 2 {
        if is_leap_year(y) { 29 } else { 28 }
    } else if m == 4 || m == 6 || m == 9 || m == 11 {
        30
    } else {
        31
    }
}

/// A calendar date and wall-clock time without a time zone.
#[derive(Debug, Clone, Copy, PartialEq, Eq, Structural)]
pub struct CivilDateTime {
    pub year: i32,
    pub month: u32,
    pub day: u32,
    pub hour: u32,
    pub minute: u32,
    pub second: u32,
    /// Above one second only for a leap second, with `second == 59`.
    pub nanosecond: u32,
}

impl CivilDateTime {
    /// A real calendar day and a real time of day.
    pub open spec fn valid(self) -> bool {
        &&& 1 <= self.month <= 12
        &&& 1 <= self.day <= days_in_month(self.year as int, self.month as int)
        &&& self.hour < 24
        &&& self.minute < 60
        &&& self.second < 60
        &&& self.nanosecond < 2_000_000_000
    }

    /// Valid, with a leap second only at second 59, and within the years
    /// that `chrono` can represent.
    pub open spec fn representable(self) -> bool {
        &&& self.valid()
        &&& self.nanosecond >= 1_000_000_000 ==> self.second == 59
        &&& MIN_YEAR <= self.year <= MAX_YEAR
    }

    /// Midnight of the given day.
    pub open spec fn midnight(year: i32, month: u32, day: u32) -> CivilDateTime {
        CivilDateTime { year, month, day, hour: 0, minute: 0, second: 0, nanosecond: 0 }
    }
}

/// A moment in the machine's local time zone: its wall-clock reading and
/// the Unix timestamp (whole seconds) of the same instant.
#[derive(Debug, Clone, Copy, PartialEq, Eq, Structural)]
pub struct LocalDateTime {
    pub local: CivilDateTime,
    pub timestamp: i64,
}

impl LocalDateTime {
    pub open spec fn wf(self) -> bool {
        self.local.valid()
    }

    pub fn year(&self) -> (r: i32)
        ensures
            r == self.local.year,
    {
        self.local.year
    }

    pub fn month(&self) -> (r: u32)
        ensures
            r == self.local.month,
    {
        self.local.month
    }

    pub fn day(&self) -> (r: u32)
        ensures
            r == self.local.day,
    {
        self.local.day
    }
}

/// A discovered media file.
#[derive(Debug, Clone)]
pub struct MediaFile {
    pub path: String,
    pub filename: String,
    /// Lowercase extension including the leading dot (e.g. `.jpg`).
    pub extension: String,
    pub media_type: MediaType,
    pub size: u64,
}

/// A media file with the capture date chosen for it.
#[derive(Debug, Clone)]
pub struct MediaMeta {
    pub file: MediaFile,
    pub created_date: LocalDateTime,
    pub date_source: DateSource,
}

/// All files of one calendar day.
#[derive(Debug)]
pub struct DateGroup {
    pub date_key: String,
    pub folder_path: String,
    pub display_name: String,
    pub date: LocalDateTime,
    pub files: Vec<MediaMeta>,
    pub image_count: usize,
    pub video_count: usize,
}

/// A file for which no capture date could be found, with the reason.
#[derive(Debug, Clone)]
pub struct UnsortableMedia {
    pub file: MediaFile,
    pub reason: String,
}

#[derive(Debug, Clone, Copy, PartialEq, Eq, Structural)]
pub enum SkipKind {
    /// Copied into the `unsortable/` folder for lack of a date.
    Unsortable,
    /// The copy itself failed.
    CopyFailed,
}

/// A file that did not end up in a date folder, and why.
#[derive(Debug, Clone)]
pub struct SkippedFile {
    pub path: String,
    pub reason: String,
    pub kind: SkipKind,
    pub media_type: MediaType,
}

} // verus!
