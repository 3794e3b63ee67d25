//! The capture date of an image from its EXIF date fields.

use vstd::prelude::*;
use crate::types::{DateSource, LocalDateTime};
use crate::text::{lossy_text, trimmed};
use crate::date_format::exif_format;
use crate::clock::naive_datetime_parsed;

verus! {

/// The EXIF date fields of the primary image, in the order they are tried.
#[derive(Debug, Clone, Copy, PartialEq, Eq, Structural)]
pub enum ExifDateField {
    /// `DateTimeOriginal`: when the picture was taken.
    Original,
    /// `DateTimeDigitized`: when it was stored as digital data.
    Digitized,
    /// `DateTime`: when the file was last changed.
    Modified,
}

/// The first ASCII string of a date field of the primary image, as
/// `kamadak-exif` reads it from the bytes of an image file.
pub uninterp spec fn exif_field_ascii(data: Seq<u8>, field: ExifDateField) -> Option<Seq<u8>>;

/// `exif::Reader::read_from_container` on the bytes, then `get_field` of
/// the date field in the primary image, then the first string of its ASCII
/// value (without the trailing NUL).
///
/// Claimed: the result is a function of the bytes and the field (the
/// reader only parses what it is given). `None` stands for a container the
/// reader refuses, a missing field, or a field whose value is not ASCII;
/// which of these held is not stated.
#[verifier::external_body]
fn exif_field_bytes(data: &[u8], field: ExifDateField) -> (r: Option<Vec<u8>>)
    ensures
        match r {
            Some(v) => exif_field_ascii(data@, field) == Some(v@),
            None => exif_field_ascii(data@, field) is None,
        },
{
    let tag = match field {
        ExifDateField::Original => exif::Tag::DateTimeOriginal,
        ExifDateField::Digitized => exif::Tag::DateTimeDigitized,
        ExifDateField::Modified => exif::Tag::DateTime,
    };
    let ex = exif::Reader::new().read_from_container(&mut std::io::Cursor::new(data)).ok()?;
    match &ex.get_field(tag, exif::In::PRIMARY)?.value {
        exif::Value::Ascii(v) => v.first().cloned(),
        _ => None,
    }
}

/// The text of a date field: its bytes decoded as UTF-8, lossily.
pub open spec fn field_text(data: Seq<u8>, field: ExifDateField) -> Option<Seq<char>> {
    match exif_field_ascii(data, field) {
        Some(b) => Some(lossy_text(b)),
        None => None,
    }
}

/// Whether a field's text reads as an EXIF date (`YYYY:MM:DD HH:MM:SS`,
/// after trimming).
pub open spec fn field_parses(data: Seq<u8>, field: ExifDateField) -> bool {
    match field_text(data, field) {
        Some(s) => trimmed(s).len() > 0 && naive_datetime_parsed(trimmed(s), exif_format()) is Some,
        None => false,
    }
}

/// `t` is the local reading of a field's date.
pub open spec fn field_reading(data: Seq<u8>, field: ExifDateField, t: LocalDateTime) -> bool {
    match field_text(data, field) {
        Some(s) => naive_datetime_parsed(trimmed(s), exif_format()) == Some(t.local),
        None => false,
    }
}

fn field_string(data: &[u8], field: ExifDateField) -> (r: Option<String>)
    ensures
        match r {
            Some(s) => field_text(data@, field) == Some(s@),
            None => field_text(data@, field) is None,
        },
{
    match exif_field_bytes(data, field) {
        Some(b) => Some(crate::text::utf8_lossy(&b)),
        None => None,
    }
}

/// The capture date of an image from the bytes of its file:
/// `DateTimeOriginal`, then `DateTimeDigitized`, then `DateTime`; the first
/// whose text reads as a local date wins.
pub fn image_date(data: &[u8]) -> (r: Option<(LocalDateTime, DateSource)>)
    ensures
        !field_parses(data@, ExifDateField::Original) && !field_parses(data@, ExifDateField::Digitized)
            && !field_parses(data@, ExifDateField::Modified) ==> r is None,
        r matches Some((t, src)) ==> src == DateSource::Exif && t.wf() && (field_reading(
            data@,
            ExifDateField::Original,
            t,
        ) || field_reading(data@, ExifDateField::Digitized, t) || field_reading(
            data@,
            ExifDateField::Modified,
            t,
        )),
{
    let a = field_string(data, ExifDateField::Original);
    let b = field_string(data, ExifDateField::Digitized);
    let c = field_string(data, ExifDateField::Modified);
    let a_ref: Option<&str> = match &a {
        Some(s) => Some(s.as_str()),
        None => None,
    };
    let b_ref: Option<&str> = match &b {
        Some(s) => Some(s.as_str()),
        None => None,
    };
    let c_ref: Option<&str> = match &c {
        Some(s) => Some(s.as_str()),
        None => None,
    };
    crate::metadata::choose_exif_date(a_ref, b_ref, c_ref)
}

} // verus!
