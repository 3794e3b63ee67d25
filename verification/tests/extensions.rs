use gallery_sorter::extensions::{classify, lower_ext, uses_ffprobe, uses_mp4parse};
use gallery_sorter::scanner::{counts_as_file, in_skipped_subtree, ScanTally};
use gallery_sorter::types::MediaType;

#[test]
fn lower_ext_lowercases_and_keeps_the_dot() {
    assert_eq!(lower_ext("/a/b/IMG_0001.JPG"), ".jpg");
    assert_eq!(lower_ext("clip.MoV"), ".mov");
    assert_eq!(lower_ext("archive.tar.GZ"), ".gz");
    assert_eq!(lower_ext("README"), "");
    assert_eq!(lower_ext(".hidden"), "");
    assert_eq!(lower_ext("dir.d/file"), "");
    assert_eq!(lower_ext("trailing."), ".");
}

#[test]
fn classify_by_extension() {
    assert_eq!(classify("a.jpg"), Some(MediaType::Image));
    assert_eq!(classify("b.JPG"), Some(MediaType::Image));
    assert_eq!(classify("raw.CR3"), Some(MediaType::Image));
    assert_eq!(classify("nested/c.mp4"), Some(MediaType::Video));
    assert_eq!(classify("clip.webm"), Some(MediaType::Video));
    assert_eq!(classify("readme.txt"), None);
    assert_eq!(classify("jpg"), None);
}

#[test]
fn video_readers() {
    for e in [".mp4", ".mov", ".m4v", ".3gp"] {
        assert!(uses_mp4parse(e));
        assert!(!uses_ffprobe(e));
    }
    for e in [".avi", ".mkv", ".wmv", ".flv", ".webm"] {
        assert!(uses_ffprobe(e));
        assert!(!uses_mp4parse(e));
    }
    assert!(!uses_mp4parse(".MP4"));
    assert!(!uses_ffprobe(".jpg"));
}

#[test]
fn scanner_finds_only_media() {
    let mut t = ScanTally::new();
    for p in ["/tmp/gs/a.jpg", "/tmp/gs/b.JPG", "/tmp/gs/readme.txt", "/tmp/gs/nested/c.mp4"] {
        t.add(p, 1);
    }
    let r = t.finish();
    assert_eq!(r.image_count, 2);
    assert_eq!(r.video_count, 1);
    assert!(r.directory_count >= 1);
}

#[test]
fn follows_symlinks_to_media_files() {
    // real.jpg (5 bytes) and link.jpg, a symbolic link to it whose size is
    // read through the link.
    let mut t = ScanTally::new();
    for (p, is_file, is_link) in [("/tmp/gs/real.jpg", true, false), ("/tmp/gs/link.jpg", false, true)] {
        if counts_as_file(is_file, is_link, true) {
            t.add(p, 5);
        }
    }
    let r = t.finish();
    assert_eq!(r.image_count, 2, "symlinked media should be discovered");
    for f in &r.files {
        assert_eq!(f.size, 5);
    }
}

#[test]
fn skip_root_excludes_subtree() {
    let skip = Some("/tmp/gs/sorted by date");
    let mut t = ScanTally::new();
    for p in ["/tmp/gs/keep.jpg", "/tmp/gs/sorted by date/2026/old.jpg"] {
        if !in_skipped_subtree(p, skip) {
            t.add(p, 1);
        }
    }
    let r = t.finish();
    assert_eq!(r.image_count, 1, "should not re-pick previously sorted files");
    assert_eq!(r.files[0].filename, "keep.jpg");
}

#[test]
fn scan_tally_counts_media_only() {
    let mut t = ScanTally::new();
    assert!(t.add("/tmp/x/a.jpg", 3));
    assert!(t.add("/tmp/x/b.JPG", 4));
    assert!(!t.add("/tmp/x/readme.txt", 100));
    assert!(t.add("/tmp/x/nested/c.mp4", 5));
    assert!(t.add("/tmp/x//nested/./d.mov", u64::MAX));
    let r = t.finish();
    assert_eq!(r.image_count, 2);
    assert_eq!(r.video_count, 2);
    assert_eq!(r.directory_count, 2);
    assert_eq!(r.total_bytes, 11);
    assert_eq!(r.files.len(), 4);
    assert_eq!(r.files[1].filename, "b.JPG");
    assert_eq!(r.files[1].extension, ".jpg");
    assert_eq!(r.files[1].path, "/tmp/x/b.JPG");
    assert_eq!(r.files[2].media_type, MediaType::Video);
    assert_eq!(r.files[2].size, 5);
}

#[test]
fn skip_root_prunes_whole_components() {
    let skip = Some("/tmp/x/sorted by date");
    assert!(in_skipped_subtree("/tmp/x/sorted by date/2026/old.jpg", skip));
    assert!(in_skipped_subtree("/tmp/x/sorted by date", skip));
    assert!(!in_skipped_subtree("/tmp/x/sorted by date 2/keep.jpg", skip));
    assert!(!in_skipped_subtree("/tmp/x/keep.jpg", skip));
    assert!(!in_skipped_subtree("/tmp/x/sorted by date/a.jpg", None));
}

#[test]
fn symlinks_to_files_count_as_files() {
    assert!(counts_as_file(true, false, false));
    assert!(counts_as_file(false, true, true));
    assert!(!counts_as_file(false, true, false));
    assert!(!counts_as_file(false, false, true));
}
