use gallery_sorter::date_format::{
    date_key, day_with_ordinal, format_for_display, format_for_folder, ordinal_suffix, parse_date_key,
    parse_exif_date,
};
use gallery_sorter::types::{CivilDateTime, LocalDateTime};

fn d(y: i32, m: u32, day: u32) -> LocalDateTime {
    LocalDateTime {
        local: CivilDateTime { year: y, month: m, day, hour: 12, minute: 0, second: 0, nanosecond: 0 },
        timestamp: 0,
    }
}

#[test]
fn ordinals() {
    assert_eq!(ordinal_suffix(1), "st");
    assert_eq!(ordinal_suffix(2), "nd");
    assert_eq!(ordinal_suffix(3), "rd");
    assert_eq!(ordinal_suffix(4), "th");
    assert_eq!(ordinal_suffix(11), "th");
    assert_eq!(ordinal_suffix(12), "th");
    assert_eq!(ordinal_suffix(13), "th");
    assert_eq!(ordinal_suffix(21), "st");
    assert_eq!(ordinal_suffix(22), "nd");
    assert_eq!(ordinal_suffix(23), "rd");
    assert_eq!(ordinal_suffix(31), "st");
}

#[test]
fn folder_path() {
    let p = format_for_folder(&d(2025, 1, 15));
    assert_eq!(p, "2025/1. Jan/15th");
}

#[test]
fn display() {
    assert_eq!(format_for_display(&d(2025, 1, 15)), "15th Jan 2025");
    assert_eq!(format_for_display(&d(2025, 12, 3)), "3rd Dec 2025");
}

#[test]
fn key_roundtrip() {
    let key = date_key(&d(2025, 6, 7));
    assert_eq!(key, "2025-06-07");
    let back = parse_date_key(&key).unwrap();
    assert_eq!((back.year(), back.month(), back.day()), (2025, 6, 7));
}

#[test]
fn exif_parse() {
    let dt = parse_exif_date("2025:01:10 14:30:00").unwrap();
    assert_eq!((dt.year(), dt.month(), dt.day()), (2025, 1, 10));
    assert!(parse_exif_date("not a date").is_none());
    assert!(parse_exif_date("").is_none());
}

#[test]
fn ordinals_of_teens_and_hundreds() {
    assert_eq!(ordinal_suffix(111), "st");
    assert_eq!(ordinal_suffix(112), "nd");
    assert_eq!(ordinal_suffix(101), "st");
    assert_eq!(ordinal_suffix(0), "th");
    assert_eq!(day_with_ordinal(1), "1st");
    assert_eq!(day_with_ordinal(12), "12th");
    assert_eq!(day_with_ordinal(22), "22nd");
}

#[test]
fn folder_and_display_of_every_month_name() {
    let names = ["Jan", "Feb", "Mar", "Apr", "May", "Jun", "Jul", "Aug", "Sep", "Oct", "Nov", "Dec"];
    for (i, name) in names.iter().enumerate() {
        let m = (i + 1) as u32;
        assert_eq!(format_for_folder(&d(2024, m, 2)), format!("2024/{}. {}/2nd", m, name));
        assert_eq!(format_for_display(&d(2024, m, 23)), format!("23rd {} 2024", name));
    }
}

#[test]
fn date_key_pads_year_month_and_day() {
    assert_eq!(date_key(&d(5, 3, 9)), "0005-03-09");
    assert_eq!(date_key(&d(2024, 12, 31)), "2024-12-31");
}

#[test]
fn date_key_parse_rejects_non_dates() {
    assert!(parse_date_key("2025-02-30").is_none());
    assert!(parse_date_key("hello").is_none());
    let t = parse_date_key("2024-02-29").unwrap();
    assert_eq!((t.local.hour, t.local.minute, t.local.second), (0, 0, 0));
    assert_eq!((t.year(), t.month(), t.day()), (2024, 2, 29));
}

#[test]
fn exif_parse_trims_and_keeps_time() {
    let dt = parse_exif_date("  2023:07:04 09:08:07 \n").unwrap();
    assert_eq!(
        (dt.local.year, dt.local.month, dt.local.day, dt.local.hour, dt.local.minute, dt.local.second),
        (2023, 7, 4, 9, 8, 7)
    );
    assert!(parse_exif_date("   ").is_none());
    assert!(parse_exif_date("2023-07-04 09:08:07").is_none());
}
