use gallery_sorter::progress::MetaSnapshot;
use gallery_sorter::report::{
    centre_in, centre_pad, compare_tone, counted_files_text, group_parts_text, kv_dots, kv_prefix_text, label_pad,
    lost_text, needs_ffprobe, oldest_to_newest, overview_head, right_align, row_label_text, section_dashes,
    skip_counts, sources_total, summary_figures, summary_title_text, unlisted_count, visible_len,
    zero_faint_or_strong, zero_faint_or_warn, Tone,
};
use gallery_sorter::types::{MediaFile, MediaType, SkipKind, SkippedFile};

#[test]
fn visible_width_ignores_escapes_and_counts_emoji_twice() {
    assert_eq!(visible_len("abc"), 3);
    assert_eq!(visible_len("\u{1b}[1;32m42\u{1b}[0m"), 2);
    assert_eq!(visible_len("\u{1f4f8}"), 2);
    assert_eq!(visible_len("\u{26a0}\u{fe0f}"), 2);
    assert_eq!(visible_len("\u{2500}\u{2500}\u{2192}"), 3);
    assert_eq!(visible_len("e\u{301}"), 1);
    assert_eq!(visible_len(""), 0);
}

#[test]
fn alignment() {
    assert_eq!(right_align("12", 5), "   12");
    assert_eq!(right_align("toolong", 3), "toolong");
    assert_eq!(right_align("\u{1b}[1m7\u{1b}[0m", 3), "  \u{1b}[1m7\u{1b}[0m");
    assert_eq!(centre_pad("abc"), 32);
    assert_eq!(centre_in("unsortable", 12), " unsortable ");
    assert_eq!(centre_in("copy failed", 12), "copy failed ");
    assert_eq!(centre_in("much too long text", 12), "much too long text");
}

#[test]
fn leaders_and_dashes() {
    // "  [stats]  OUTPUT  " takes 2 + 7 + 2 + 6 + 2 = 19 columns.
    assert_eq!(section_dashes("[stats]", "OUTPUT"), 48);
    assert_eq!(section_dashes("x", &"y".repeat(80)), 3);
    let p = kv_prefix_text("[ok]", "Copied into date folders");
    assert_eq!(p, "[ok]  Copied into date folders ");
    assert_eq!(kv_dots(&p), 44 - 31 - 1);
    assert_eq!(kv_dots(&"z".repeat(60)), 2);
    let l = row_label_text("[img]", "Images");
    assert_eq!(l, "[img]  Images");
    assert_eq!(label_pad(&l), 22 - 13);
}

#[test]
fn tones() {
    assert_eq!(compare_tone(5, 5), Tone::Good);
    assert_eq!(compare_tone(4, 5), Tone::Bad);
    assert_eq!(compare_tone(6, 5), Tone::Strong);
    assert_eq!(zero_faint_or_warn(0), Tone::Faint);
    assert_eq!(zero_faint_or_warn(2), Tone::Warn);
    assert_eq!(zero_faint_or_strong(0), Tone::Faint);
    assert_eq!(zero_faint_or_strong(9), Tone::Strong);
}

#[test]
fn wording() {
    assert_eq!(counted_files_text(1, " in"), "1 file in");
    assert_eq!(counted_files_text(0, " in output"), "0 files in output");
    assert_eq!(lost_text(1), "1 file LOST \u{2014} see skipped report above");
    assert_eq!(lost_text(3), "3 files LOST \u{2014} see skipped report above");
    assert_eq!(summary_title_text("*", "1.5s", 120), "*  Sorted in 1.5s   \u{b7}   120 files/s");
    assert_eq!(group_parts_text(1, 0), "1 image");
    assert_eq!(group_parts_text(3, 1), "3 images, 1 video");
    assert_eq!(group_parts_text(0, 2), "2 videos");
    assert_eq!(overview_head(6), 6);
    assert_eq!(overview_head(7), 5);
    assert_eq!(unlisted_count(49), 0);
    assert_eq!(unlisted_count(53), 3);
}

#[test]
fn summary_numbers() {
    let f = summary_figures(10, 4, 3, 2, 1, 5);
    assert_eq!(f.input_total, 14);
    assert_eq!(f.output_images, 8);
    assert_eq!(f.output_videos, 3);
    assert_eq!(f.output_total, 11);
    assert_eq!(f.lost_total, 3);
    assert!(!f.everything_ok);
    assert_eq!(f.skipped_total, 8);
    let g = summary_figures(1, 0, 0, 5, 0, 0);
    assert_eq!(g.output_images, 0);
    assert!(g.everything_ok);
    let s = MetaSnapshot { exif: 1, qt: 2, mp4: 3, ffprobe: 4, fs: 5 };
    assert_eq!(sources_total(&s), 15);
}

fn skip(kind: SkipKind, t: MediaType) -> SkippedFile {
    SkippedFile { path: "/p".to_string(), reason: "r".to_string(), kind, media_type: t }
}

#[test]
fn skipped_counts() {
    let v = vec![
        skip(SkipKind::Unsortable, MediaType::Image),
        skip(SkipKind::CopyFailed, MediaType::Image),
        skip(SkipKind::CopyFailed, MediaType::Video),
        skip(SkipKind::CopyFailed, MediaType::Image),
    ];
    let c = skip_counts(&v);
    assert_eq!((c.unsortable, c.copy_failed, c.copy_failed_images, c.copy_failed_videos), (1, 3, 2, 1));
}

#[test]
fn ffprobe_needed_only_for_its_formats() {
    let f = |e: &str| MediaFile {
        path: "p".to_string(),
        filename: "f".to_string(),
        extension: e.to_string(),
        media_type: MediaType::Video,
        size: 0,
    };
    assert!(!needs_ffprobe(&vec![f(".mp4"), f(".mov")]));
    assert!(needs_ffprobe(&vec![f(".mp4"), f(".mkv")]));
    assert!(!needs_ffprobe(&vec![]));
    assert!(oldest_to_newest(&vec![]).is_none());
}
