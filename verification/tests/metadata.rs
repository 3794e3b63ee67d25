use gallery_sorter::exif_image::image_date;
use gallery_sorter::grouper::{assemble_groups, group_by_date};
use gallery_sorter::metadata::{
    choose_exif_date, collect_results, extractor_for, filesystem_date, first_exif_date, resolve_meta,
    system_to_local, unsortable_reason, Extractor,
};
use gallery_sorter::probe::{choose_probe_date, parse_iso_like, probe_date};
use gallery_sorter::types::{CivilDateTime, DateSource, LocalDateTime, MediaFile, MediaMeta, MediaType};

fn file(name: &str, ext: &str, t: MediaType) -> MediaFile {
    MediaFile {
        path: format!("/in/{}", name),
        filename: name.to_string(),
        extension: ext.to_string(),
        media_type: t,
        size: 1,
    }
}

fn at(y: i32, m: u32, d: u32, h: u32, ts: i64) -> LocalDateTime {
    LocalDateTime {
        local: CivilDateTime { year: y, month: m, day: d, hour: h, minute: 0, second: 0, nanosecond: 0 },
        timestamp: ts,
    }
}

#[test]
fn extractor_per_kind() {
    assert_eq!(extractor_for(&file("a.jpg", ".jpg", MediaType::Image)), Extractor::Exif);
    assert_eq!(extractor_for(&file("a.mov", ".mov", MediaType::Video)), Extractor::Mp4);
    assert_eq!(extractor_for(&file("a.mkv", ".mkv", MediaType::Video)), Extractor::Ffprobe);
    assert_eq!(extractor_for(&file("a.xyz", ".xyz", MediaType::Video)), Extractor::NoExtractor);
}

#[test]
fn reasons_name_the_reader() {
    assert_eq!(
        unsortable_reason(&file("a.jpg", ".jpg", MediaType::Image)),
        "no EXIF date in image; filesystem birth/modify timestamps are also unreadable or zero"
    );
    assert_eq!(
        unsortable_reason(&file("a.mp4", ".mp4", MediaType::Video)),
        "no creation date in MP4/MOV/M4V/3GP container; filesystem birth/modify timestamps are also unreadable or zero"
    );
    assert!(unsortable_reason(&file("a.avi", ".avi", MediaType::Video)).starts_with("ffprobe could not read"));
    assert!(unsortable_reason(&file("a.q", ".q", MediaType::Video)).starts_with("no metadata extractor"));
}

#[test]
fn exif_fields_in_priority_order() {
    let (t, src) = choose_exif_date(Some("bad"), Some("2021:02:03 04:05:06"), Some("2020:01:01 00:00:00")).unwrap();
    assert_eq!(src, DateSource::Exif);
    assert_eq!((t.local.year, t.local.month, t.local.day, t.local.hour), (2021, 2, 3, 4));
    assert!(choose_exif_date(None, Some("  "), Some("nope")).is_none());
    let a = at(2020, 1, 1, 0, 10);
    let b = at(2021, 1, 1, 0, 20);
    assert_eq!(first_exif_date(None, Some(a), Some(b)), Some((a, DateSource::Exif)));
    assert_eq!(first_exif_date(None, None, None), None);
}

#[test]
fn filesystem_fallback_skips_the_epoch() {
    let b = at(2020, 1, 1, 0, 100);
    let m = at(2021, 1, 1, 0, 200);
    let zero = at(1970, 1, 1, 0, 0);
    assert_eq!(filesystem_date(Some(b), Some(m)), Some((b, DateSource::FileBirthtime)));
    assert_eq!(filesystem_date(Some(zero), Some(m)), Some((m, DateSource::FileMtime)));
    assert_eq!(filesystem_date(None, Some(m)), Some((m, DateSource::FileMtime)));
    assert_eq!(filesystem_date(Some(zero), Some(zero)), None);
    let t = system_to_local(1_700_000_000, 5).unwrap();
    assert_eq!((t.timestamp, t.local.nanosecond), (1_700_000_000, 5));
}

#[test]
fn resolution_and_collection() {
    let f = file("a.jpg", ".jpg", MediaType::Image);
    let e = at(2020, 5, 5, 1, 1);
    let fs = at(2021, 5, 5, 1, 2);
    let r1 = resolve_meta(f.clone(), Some((e, DateSource::Exif)), Some((fs, DateSource::FileMtime)));
    let r2 = resolve_meta(f.clone(), None, Some((fs, DateSource::FileMtime)));
    let r3 = resolve_meta(f.clone(), None, None);
    assert_eq!(r1.as_ref().unwrap().date_source, DateSource::Exif);
    assert_eq!(r1.as_ref().unwrap().created_date, e);
    assert_eq!(r2.as_ref().unwrap().date_source, DateSource::FileMtime);
    assert!(r3.as_ref().err().unwrap().reason.starts_with("no EXIF date in image"));
    let c = collect_results(vec![r1, r3, r2]);
    assert_eq!(c.metas.len(), 2);
    assert_eq!(c.unsortable.len(), 1);
    assert_eq!(c.metas[0].date_source, DateSource::Exif);
    assert_eq!(c.metas[1].date_source, DateSource::FileMtime);
}

#[test]
fn ffprobe_tags() {
    assert_eq!(parse_iso_like("2024-08-12T21:32:11.000000Z"), Some((1_723_498_331, 0)));
    assert_eq!(parse_iso_like("2024-08-12T14:32:11-0700"), Some((1_723_498_331, 0)));
    assert_eq!(parse_iso_like("2024-08-12T14:32:11.25-0700"), Some((1_723_498_331, 250_000_000)));
    assert_eq!(parse_iso_like("  "), None);
    let (t, src) = probe_date(Some("2024-08-12T21:32:11Z"), Some("2000-01-01T00:00:00Z")).unwrap();
    assert_eq!((t.timestamp, src), (946_684_800, DateSource::Ffprobe));
    let (t, src) = probe_date(Some("2024-08-12T21:32:11Z"), Some("junk")).unwrap();
    assert_eq!((t.timestamp, src), (1_723_498_331, DateSource::QuickTime));
    let (t, src) = probe_date(Some("2024-08-12T21:32:11Z"), None).unwrap();
    assert_eq!((t.timestamp, src), (1_723_498_331, DateSource::QuickTime));
    assert!(probe_date(None, Some("junk")).is_none());
    let a = at(2020, 1, 1, 0, 1);
    let b = at(2021, 1, 1, 0, 2);
    assert_eq!(choose_probe_date(None, Some(a)), Some((a, DateSource::Ffprobe)));
    assert_eq!(choose_probe_date(Some(b), Some(a)), Some((a, DateSource::Ffprobe)));
    assert_eq!(choose_probe_date(Some(b), None), Some((b, DateSource::QuickTime)));
}

fn meta(name: &str, t: MediaType, when: LocalDateTime) -> MediaMeta {
    let ext = if t == MediaType::Image { ".jpg" } else { ".mp4" };
    MediaMeta { file: file(name, ext, t), created_date: when, date_source: DateSource::Exif }
}

#[test]
fn grouping_by_day_oldest_first() {
    let files = vec![
        meta("late.jpg", MediaType::Image, at(2025, 3, 2, 9, 0)),
        meta("early.jpg", MediaType::Image, at(2024, 12, 31, 23, 0)),
        meta("late.mp4", MediaType::Video, at(2025, 3, 2, 18, 0)),
        meta("late2.jpg", MediaType::Image, at(2025, 3, 2, 1, 0)),
    ];
    let r = group_by_date(files).unwrap();
    assert_eq!(r.total_images, 3);
    assert_eq!(r.total_videos, 1);
    assert_eq!(r.groups.len(), 2);
    let g0 = &r.groups[0];
    assert_eq!(g0.date_key, "2024-12-31");
    assert_eq!(g0.folder_path, "2024/12. Dec/31st");
    assert_eq!(g0.display_name, "31st Dec 2024");
    assert_eq!((g0.image_count, g0.video_count), (1, 0));
    assert_eq!((g0.date.local.hour, g0.date.local.day), (0, 31));
    let g1 = &r.groups[1];
    assert_eq!(g1.date_key, "2025-03-02");
    assert_eq!((g1.image_count, g1.video_count), (2, 1));
    let names: Vec<&str> = g1.files.iter().map(|m| m.file.filename.as_str()).collect();
    assert_eq!(names, vec!["late.jpg", "late.mp4", "late2.jpg"]);
    let empty = group_by_date(vec![]).unwrap();
    assert_eq!(empty.groups.len(), 0);
}

fn tiff_with_dates(original: Option<&str>, modified: &str) -> Vec<u8> {
    // Little-endian TIFF: IFD0 holds DateTime and a pointer to the Exif IFD,
    // which holds DateTimeOriginal.
    let mut v: Vec<u8> = vec![0x49, 0x49, 0x2a, 0x00, 8, 0, 0, 0];
    let ifd0_len = 2 + 12 * 2 + 4;
    let exif_ifd = 8 + ifd0_len;
    let exif_len = 2 + 12 + 4;
    let data_at = exif_ifd + exif_len;
    let orig = original.unwrap_or("");
    let orig_at = data_at;
    let mod_at = data_at + orig.len() + 1;
    v.extend_from_slice(&2u16.to_le_bytes());
    v.extend_from_slice(&0x0132u16.to_le_bytes());
    v.extend_from_slice(&2u16.to_le_bytes());
    v.extend_from_slice(&((modified.len() + 1) as u32).to_le_bytes());
    v.extend_from_slice(&(mod_at as u32).to_le_bytes());
    v.extend_from_slice(&0x8769u16.to_le_bytes());
    v.extend_from_slice(&4u16.to_le_bytes());
    v.extend_from_slice(&1u32.to_le_bytes());
    v.extend_from_slice(&(exif_ifd as u32).to_le_bytes());
    v.extend_from_slice(&0u32.to_le_bytes());
    if original.is_some() {
        v.extend_from_slice(&1u16.to_le_bytes());
        v.extend_from_slice(&0x9003u16.to_le_bytes());
        v.extend_from_slice(&2u16.to_le_bytes());
        v.extend_from_slice(&((orig.len() + 1) as u32).to_le_bytes());
        v.extend_from_slice(&(orig_at as u32).to_le_bytes());
    } else {
        v.extend_from_slice(&0u16.to_le_bytes());
        v.extend_from_slice(&[0u8; 12]);
    }
    v.extend_from_slice(&0u32.to_le_bytes());
    v.extend_from_slice(orig.as_bytes());
    v.push(0);
    v.extend_from_slice(modified.as_bytes());
    v.push(0);
    v
}

#[test]
fn image_dates_from_exif_fields() {
    let both = tiff_with_dates(Some("2021:03:04 05:06:07"), "2022:01:01 00:00:00");
    let (t, src) = image_date(&both).unwrap();
    assert_eq!(src, DateSource::Exif);
    assert_eq!(
        (t.local.year, t.local.month, t.local.day, t.local.hour, t.local.minute, t.local.second),
        (2021, 3, 4, 5, 6, 7)
    );
    let only_modified = tiff_with_dates(Some("unknown"), "2022:01:02 03:04:05");
    let (t, _) = image_date(&only_modified).unwrap();
    assert_eq!((t.local.year, t.local.month, t.local.day), (2022, 1, 2));
    assert!(image_date(b"not an image at all").is_none());
    assert!(image_date(&[]).is_none());
}

#[test]
fn assembled_groups_follow_their_dates() {
    let late = at(2025, 3, 2, 0, 200);
    let early = at(2024, 12, 31, 0, 100);
    let keys = vec!["2025-03-02".to_string(), "2024-12-31".to_string()];
    let buckets = vec![
        vec![
            meta("a.jpg", MediaType::Image, at(2025, 3, 2, 9, 0)),
            meta("b.mp4", MediaType::Video, at(2025, 3, 2, 10, 0)),
        ],
        vec![meta("c.jpg", MediaType::Image, at(2024, 12, 31, 8, 0))],
    ];
    let gs = assemble_groups(keys, buckets, vec![late, early]);
    assert_eq!(gs.len(), 2);
    assert_eq!(gs[0].date_key, "2024-12-31");
    assert_eq!(gs[0].date, early);
    assert_eq!(gs[0].folder_path, "2024/12. Dec/31st");
    assert_eq!(gs[0].display_name, "31st Dec 2024");
    assert_eq!((gs[0].image_count, gs[0].video_count), (1, 0));
    assert_eq!(gs[1].date_key, "2025-03-02");
    assert_eq!(gs[1].folder_path, "2025/3. Mar/2nd");
    assert_eq!((gs[1].image_count, gs[1].video_count), (1, 1));
    assert_eq!(gs[1].files[1].file.filename, "b.mp4");
}

#[test]
fn source_labels() {
    assert_eq!(DateSource::Exif.label(), "EXIF");
    assert_eq!(DateSource::QuickTime.label(), "QuickTime");
    assert_eq!(DateSource::Mp4Box.label(), "MP4box");
    assert_eq!(DateSource::Ffprobe.label(), "ffprobe");
    assert_eq!(DateSource::FileBirthtime.label(), "fs-birthtime");
    assert_eq!(DateSource::FileMtime.label(), "fs-mtime");
}

#[test]
fn placeable_instants_always_get_a_local_time() {
    assert!(system_to_local(0, 0).is_some());
    assert!(system_to_local(59, 1_500_000_000).is_some());
    assert!(system_to_local(58, 1_500_000_000).is_none());
    assert!(system_to_local(59, 2_000_000_000).is_none());
    assert!(system_to_local(8_210_266_876_799, 0).is_some());
    assert!(system_to_local(8_210_266_876_800, 0).is_none());
    assert!(system_to_local(400_000_000_000, 0).is_some());
    let (t, src) = gallery_sorter::mp4_meta::mp4_date(Some(0), None).unwrap();
    assert_eq!((t.timestamp, src), (-2_082_844_800, DateSource::Mp4Box));
    assert!(system_to_local(253_402_300_799, 999_999_999).is_some());
    let (_, src) = probe_date(None, Some("1999-12-31T23:59:59Z")).unwrap();
    assert_eq!(src, DateSource::Ffprobe);
}
