use gallery_sorter::copier::{
    copied_outcome, copy_dirs, copy_work, pick_unique, split_ext, CopyOutcome, CopyResult, DirState, NameSet,
    Reserved, UNSORTABLE_FOLDER,
};
use gallery_sorter::types::{
    CivilDateTime, DateGroup, DateSource, LocalDateTime, MediaFile, MediaMeta, MediaType, SkipKind,
    UnsortableMedia,
};

fn s(x: &str) -> String {
    x.to_string()
}

#[test]
fn split_extension() {
    assert_eq!(split_ext("foo.jpg"), (s("foo"), s("jpg")));
    assert_eq!(split_ext("foo"), (s("foo"), s("")));
    assert_eq!(split_ext(".hidden"), (s(".hidden"), s("")));
    assert_eq!(split_ext("a.b.c"), (s("a.b"), s("c")));
}

#[test]
fn unique_naming() {
    let mut taken = NameSet::new();
    taken.insert("a.jpg".into());
    assert_eq!(pick_unique(&taken, "b.jpg"), "b.jpg");
    assert_eq!(pick_unique(&taken, "a.jpg"), "a_1.jpg");
    taken.insert("a_1.jpg".into());
    assert_eq!(pick_unique(&taken, "a.jpg"), "a_2.jpg");
}

#[test]
fn unique_naming_without_extension_and_trailing_dot() {
    let mut taken = NameSet::new();
    taken.insert("README".into());
    taken.insert("x.".into());
    assert_eq!(pick_unique(&taken, "README"), "README_1");
    assert_eq!(pick_unique(&taken, "x."), "x_1");
    assert_eq!(split_ext("x."), (s("x"), s("")));
}

fn file(path: &str, name: &str, size: u64) -> MediaFile {
    MediaFile {
        path: path.to_string(),
        filename: name.to_string(),
        extension: ".jpg".to_string(),
        media_type: MediaType::Image,
        size,
    }
}

#[test]
fn same_name_same_size_in_different_subdirs_are_both_copied() {
    // camA/IMG.jpg and camB/IMG.jpg, 8 bytes each, into an empty day folder:
    // the second sees the first's name on disk with the same size, but that
    // name was made by this run.
    let mut st = DirState::seed(&vec![]);
    let mut r = CopyResult::new();
    let a = file("/tmp/camA/IMG.jpg", "IMG.jpg", 8);
    let b = file("/tmp/camB/IMG.jpg", "IMG.jpg", 8);
    let mut names: Vec<String> = Vec::new();
    for f in [&a, &b] {
        match st.reserve(&f.filename, true) {
            Reserved::Use(n) => {
                names.push(n);
                r.record_dated(f, copied_outcome(None, f.size));
            }
            Reserved::Dedup => r.record_dated(f, CopyOutcome::Deduped),
        }
    }
    assert_eq!(r.files_copied, 2, "both source files must be copied");
    assert_eq!(r.files_skipped, 0, "neither file is a real duplicate");
    names.sort();
    assert_eq!(names, vec!["IMG.jpg", "IMG_1.jpg"]);
}

#[test]
fn pre_existing_destination_file_is_deduped() {
    let mut st = DirState::seed(&vec![s("IMG.jpg")]);
    let mut r = CopyResult::new();
    let f = file("/tmp/src/IMG.jpg", "IMG.jpg", 8);
    match st.reserve(&f.filename, st.is_pre_existing(&f.filename)) {
        Reserved::Dedup => r.record_dated(&f, CopyOutcome::Deduped),
        Reserved::Use(_) => r.record_dated(&f, copied_outcome(None, f.size)),
    }
    assert_eq!(r.files_copied, 0);
    assert_eq!(r.files_skipped, 1);
}

#[test]
fn pre_existing_same_size_only_is_deduped() {
    let mut st = DirState::seed(&vec![s("IMG.jpg")]);
    assert!(st.is_pre_existing("IMG.jpg"));
    assert!(!st.is_pre_existing("other.jpg"));
    assert!(matches!(st.reserve("IMG.jpg", true), Reserved::Dedup));
    match st.reserve("IMG.jpg", false) {
        Reserved::Use(n) => assert_eq!(n, "IMG_1.jpg"),
        Reserved::Dedup => panic!("a different size is no duplicate"),
    }
}

#[test]
fn copied_outcome_counts_logical_size_after_reflink() {
    assert!(matches!(copied_outcome(Some(7), 100), CopyOutcome::Copied(7)));
    assert!(matches!(copied_outcome(None, 100), CopyOutcome::Copied(100)));
}

#[test]
fn copy_tally_of_dated_files() {
    let mut r = CopyResult::new();
    r.record_folder(true);
    r.record_folder(false);
    let f = file("/src/a.jpg", "a.jpg", 10);
    r.record_dated(&f, CopyOutcome::Copied(10));
    r.record_dated(&f, CopyOutcome::Copied(u64::MAX));
    r.record_dated(&f, CopyOutcome::Deduped);
    r.record_dated(&f, CopyOutcome::Failed(s("disk full")));
    assert_eq!(r.folders_created, 1);
    assert_eq!(r.files_copied, 2);
    assert_eq!(r.files_skipped, 1);
    assert_eq!(r.bytes_copied, 9);
    assert_eq!(r.unsortable_copied, 0);
    assert_eq!(r.skipped.len(), 1);
    assert_eq!(r.skipped[0].path, "/src/a.jpg");
    assert_eq!(r.skipped[0].reason, "copy failed: disk full");
    assert_eq!(r.skipped[0].kind, SkipKind::CopyFailed);
    assert_eq!(r.skipped[0].media_type, MediaType::Image);
}

#[test]
fn copy_tally_of_unsortable_files() {
    let mut r = CopyResult::new();
    let u = UnsortableMedia { file: file("/src/b.jpg", "b.jpg", 5), reason: s("no EXIF date") };
    r.record_unsortable(&u, CopyOutcome::Copied(5));
    r.record_unsortable(&u, CopyOutcome::Deduped);
    r.record_unsortable(&u, CopyOutcome::Failed(s("denied")));
    assert_eq!(r.unsortable_copied, 1);
    assert_eq!(r.files_skipped, 1);
    assert_eq!(r.bytes_copied, 5);
    assert_eq!(r.skipped.len(), 3);
    assert_eq!(r.skipped[0].reason, "no EXIF date");
    assert_eq!(r.skipped[0].kind, SkipKind::Unsortable);
    assert_eq!(r.skipped[1].reason, "no EXIF date (already present in unsortable/)");
    assert_eq!(r.skipped[1].kind, SkipKind::Unsortable);
    assert_eq!(r.skipped[2].reason, "no EXIF date \u{2014} and copy into unsortable/ also failed: denied");
    assert_eq!(r.skipped[2].kind, SkipKind::CopyFailed);
}

fn meta(path: &str) -> MediaMeta {
    MediaMeta {
        file: file(path, "x.jpg", 1),
        created_date: LocalDateTime {
            local: CivilDateTime { year: 2026, month: 5, day: 4, hour: 1, minute: 0, second: 0, nanosecond: 0 },
            timestamp: 0,
        },
        date_source: DateSource::FileMtime,
    }
}

fn group(folder: &str, n: usize) -> DateGroup {
    DateGroup {
        date_key: s("2026-05-04"),
        folder_path: folder.to_string(),
        display_name: s("4th May 2026"),
        date: meta("/x").created_date,
        files: (0..n).map(|i| meta(&format!("/f{}", i))).collect(),
        image_count: n,
        video_count: 0,
    }
}

#[test]
fn work_list_and_folders() {
    let groups = vec![group("2026/5. May/4th", 2), group("2026/5. May/5th", 0), group("2026/5. May/6th", 1)];
    assert_eq!(copy_work(&groups), vec![(0, 0), (0, 1), (2, 0)]);
    assert_eq!(copy_dirs(&groups, false), vec![s("2026/5. May/4th"), s("2026/5. May/5th"), s("2026/5. May/6th")]);
    let with_bin = copy_dirs(&groups, true);
    assert_eq!(with_bin.len(), 4);
    assert_eq!(with_bin[3], UNSORTABLE_FOLDER);
    assert_eq!(UNSORTABLE_FOLDER, "unsortable");
}

#[test]
fn empty_tallies() {
    let r = CopyResult::default();
    assert_eq!((r.folders_created, r.files_copied, r.files_skipped, r.bytes_copied, r.unsortable_copied), (0, 0, 0, 0, 0));
    assert!(r.skipped.is_empty());
    let s = gallery_sorter::scanner::ScanResult::default();
    assert_eq!((s.files.len(), s.image_count, s.video_count, s.directory_count, s.total_bytes), (0, 0, 0, 0, 0));
}

#[test]
fn run_tallies_account_for_every_file() {
    let groups = vec![group("2026/5. May/4th", 2), group("2026/5. May/5th", 1)];
    let work = copy_work(&groups);
    let mut r = CopyResult::new();
    r.record_dated_run(
        &groups,
        &work,
        vec![CopyOutcome::Copied(3), CopyOutcome::Failed(s("busy")), CopyOutcome::Deduped],
    );
    assert_eq!((r.files_copied, r.files_skipped, r.bytes_copied), (1, 1, 3));
    assert_eq!(r.skipped.len(), 1);
    assert_eq!(r.skipped[0].path, "/f1");
    assert_eq!(r.skipped[0].reason, "copy failed: busy");
    let us = vec![
        UnsortableMedia { file: file("/u/a.jpg", "a.jpg", 4), reason: s("why") },
        UnsortableMedia { file: file("/u/b.jpg", "b.jpg", 4), reason: s("why") },
    ];
    r.record_unsortable_run(&us, vec![CopyOutcome::Copied(4), CopyOutcome::Deduped]);
    assert_eq!((r.unsortable_copied, r.files_skipped, r.bytes_copied), (1, 2, 7));
    assert_eq!(r.skipped.len(), 3);
    assert_eq!(r.skipped[1].path, "/u/a.jpg");
    assert_eq!(r.skipped[2].reason, "why (already present in unsortable/)");
}
