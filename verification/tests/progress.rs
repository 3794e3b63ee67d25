use gallery_sorter::copier::CopyEvent;
use gallery_sorter::progress::{
    copy_display_path, format_dur, human_count, truncate_middle, Glyphs, MetaSnapshot, UiOptions,
};
use gallery_sorter::types::DateSource;

#[test]
fn durations() {
    assert_eq!(format_dur(0, 0), "0.0s");
    assert_eq!(format_dur(4, 230_000_000), "4.2s");
    assert_eq!(format_dur(4, 260_000_000), "4.3s");
    assert_eq!(format_dur(59, 960_000_000), "60.0s");
    assert_eq!(format_dur(60, 0), "1m 0s");
    assert_eq!(format_dur(187, 999_999_999), "3m 7s");
    assert_eq!(format_dur(3599, 0), "59m 59s");
    assert_eq!(format_dur(3600, 0), "1h 0m 0s");
    assert_eq!(format_dur(3 * 3600 + 62, 0), "3h 1m 2s");
}

#[test]
fn short_counts() {
    assert_eq!(human_count(0), "0");
    assert_eq!(human_count(999), "999");
    assert_eq!(human_count(1000), "1.0k");
    assert_eq!(human_count(1234), "1.2k");
    assert_eq!(human_count(1260), "1.3k");
    assert_eq!(human_count(999_999), "1000.0k");
    assert_eq!(human_count(1_000_000), "1.0M");
    assert_eq!(human_count(12_340_000), "12.3M");
}

#[test]
fn middle_truncation() {
    assert_eq!(truncate_middle("short", 10), "short");
    assert_eq!(truncate_middle("abcdefghij", 10), "abcdefghij");
    // max 10: head 3, tail 4.
    assert_eq!(truncate_middle("abcdefghijk", 10), "abc...hijk");
    let long: String = "x".repeat(100);
    assert_eq!(truncate_middle(&long, 70).chars().count(), 70);
    assert_eq!(truncate_middle("ééééééééé", 8), "éé...ééé");
}

#[test]
fn copy_paths_show_three_components() {
    assert_eq!(copy_display_path("/out/sorted/2025/1. Jan/15th", "IMG.jpg"), "2025/1. Jan/15th/IMG.jpg");
    assert_eq!(copy_display_path("a/b", "x.mp4"), "a/b/x.mp4");
    assert_eq!(copy_display_path("/a", "x"), "//a/x");
}

#[test]
fn glyph_choice() {
    let g = Glyphs::with_no_emoji(false);
    assert_eq!(g.pick("\u{2705}", "[ok]"), "\u{2705}");
    let g = Glyphs::with_no_emoji(true);
    assert_eq!(g.pick("\u{2705}", "[ok]"), "[ok]");
    assert!(UiOptions::from_attended(false).quiet);
    assert!(!UiOptions::from_attended(true).quiet);
}

#[test]
fn source_tally() {
    let mut s = MetaSnapshot::default();
    s.record(DateSource::Exif);
    s.record(DateSource::Exif);
    s.record(DateSource::QuickTime);
    s.record(DateSource::Mp4Box);
    s.record(DateSource::Ffprobe);
    s.record(DateSource::FileBirthtime);
    s.record(DateSource::FileMtime);
    assert_eq!((s.exif, s.qt, s.mp4, s.ffprobe, s.fs), (2, 1, 1, 1, 2));
    let mut w = MetaSnapshot { exif: u64::MAX, qt: 0, mp4: 0, ffprobe: 0, fs: 0 };
    w.record(DateSource::Exif);
    assert_eq!(w.exif, 0);
}

#[test]
fn copy_counts() {
    let mut c = gallery_sorter::progress::CopyCounts::new();
    c.record(&CopyEvent { final_name: "a.jpg", dest_dir: "/o", bytes: 10, deduped: false });
    c.record(&CopyEvent { final_name: "b.jpg", dest_dir: "/o", bytes: 5, deduped: true });
    c.record(&CopyEvent { final_name: "c.jpg", dest_dir: "/o", bytes: u64::MAX, deduped: false });
    assert_eq!((c.bytes_done, c.copied, c.deduped), (14, 2, 1));
}
