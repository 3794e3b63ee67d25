//! The tally of a directory walk: which files are media, how many of each
//! kind, their total size and how many distinct directories hold them.

use vstd::prelude::*;
use crate::types::{MediaFile, MediaType};
use crate::extensions::{classify_of, lower_ext_of};
use crate::paths::{file_name_of, parent_key_of, path_starts_with};
use crate::copier::NameSet;

verus! {

/// What a walk found.
pub struct ScanResult {
    pub files: Vec<MediaFile>,
    pub image_count: usize,
    pub video_count: usize,
    pub directory_count: usize,
    pub total_bytes: u64,
}

impl Default for ScanResult {
    fn default() -> (r: ScanResult)
        ensures
            r.files@.len() == 0,
            r.image_count == 0,
            r.video_count == 0,
            r.directory_count == 0,
            r.total_bytes == 0,
    {
        ScanResult { files: Vec::new(), image_count: 0, video_count: 0, directory_count: 0, total_bytes: 0 }
    }
}

/// Hooks that a walk calls as it goes; both do nothing unless overridden.
pub trait ScanProgress {
    fn on_file(&self, file: &MediaFile) {
    }

    fn on_dir(&self) {
    }
}

/// Progress hooks that do nothing.
pub struct NoopProgress;

impl ScanProgress for NoopProgress {
}

/// The record of a media file at `path` of kind `media_type` and `size`
/// bytes: its file name (empty where the path has none) and its lowercased
/// extension.
pub open spec fn media_file_is(f: MediaFile, path: Seq<char>, media_type: MediaType, size: u64) -> bool {
    &&& f.path@ == path
    &&& f.filename@ == match file_name_of(path) {
        Some(n) => n,
        None => Seq::empty(),
    }
    &&& f.extension@ == lower_ext_of(path)
    &&& f.media_type == media_type
    &&& f.size == size
}

pub open spec fn count_type(files: Seq<MediaFile>, t: MediaType) -> nat
    decreases files.len(),
{
    if files.len() == 0 {
        0
    } else {
        count_type(files.drop_last(), t) + if files.last().media_type == t { 1nat } else { 0nat }
    }
}

/// A walk in progress.
pub struct ScanTally {
    files: Vec<MediaFile>,
    image_count: usize,
    video_count: usize,
    total_bytes: u64,
    dirs: NameSet,
}

impl ScanTally {
    pub closed spec fn files(&self) -> Seq<MediaFile> {
        self.files@
    }

    pub closed spec fn total_bytes(&self) -> u64 {
        self.total_bytes
    }

    /// The keys of the parent directories of the files found.
    pub closed spec fn dirs(&self) -> Set<Seq<char>> {
        self.dirs@
    }

    /// The counts agree with the files, and the directory set is finite.
    pub closed spec fn wf(&self) -> bool {
        &&& self.image_count == count_type(self.files@, MediaType::Image)
        &&& self.video_count == count_type(self.files@, MediaType::Video)
        &&& self.dirs.wf()
    }

    pub fn new() -> (r: ScanTally)
        ensures
            r.wf(),
            r.files() == Seq::<MediaFile>::empty(),
            r.total_bytes() == 0,
            r.dirs() == Set::<Seq<char>>::empty(),
    {
        ScanTally { files: Vec::new(), image_count: 0, video_count: 0, total_bytes: 0, dirs: NameSet::new() }
    }

    /// How many media files were taken in so far.
    pub fn len(&self) -> (r: usize)
        ensures
            r == self.files().len(),
    {
        self.files.len()
    }

    /// The `i`-th media file taken in.
    pub fn file(&self, i: usize) -> (r: &MediaFile)
        requires
            i < self.files().len(),
        ensures
            *r == self.files()[i as int],
    {
        &self.files[i]
    }

    /// Takes in the file at `path` of `size` bytes, if its extension marks
    /// it as media; returns whether it did. Sizes add up modulo 2^64.
    pub fn add(&mut self, path: &str, size: u64) -> (r: bool)
        requires
            old(self).wf(),
            old(self).files().len() < usize::MAX,
        ensures
            final(self).wf(),
            r == (classify_of(path@) is Some),
            !r ==> final(self).files() == old(self).files() && final(self).total_bytes() == old(self).total_bytes()
                && final(self).dirs() == old(self).dirs(),
            r ==> {
                &&& final(self).files().len() == old(self).files().len() + 1
                &&& final(self).files().drop_last() == old(self).files()
                &&& media_file_is(final(self).files().last(), path@, classify_of(path@)->Some_0, size)
                &&& final(self).total_bytes() == (old(self).total_bytes() + size) % 0x1_0000_0000_0000_0000
                &&& final(self).dirs() == match parent_key_of(path@) {
                    Some(k) => old(self).dirs().insert(k),
                    None => old(self).dirs(),
                }
            },
    {
        let media_type = match crate::extensions::classify(path) {
            Some(t) => t,
            None => return false,
        };
        let cs = crate::text::chars_of(path);
        let filename = match crate::paths::file_name(&cs) {
            Some(n) => crate::text::string_of(&n),
            None => String::new(),
        };
        let extension = crate::extensions::lower_ext(path);
        match crate::paths::parent_key(&cs) {
            Some(k) => self.dirs.insert(k),
            None => {},
        }
        self.total_bytes = self.total_bytes.wrapping_add(size);
        proof {
            lemma_count_type_le(self.files@, MediaType::Image);
            lemma_count_type_le(self.files@, MediaType::Video);
        }
        match media_type {
            MediaType::Image => self.image_count = self.image_count + 1,
            MediaType::Video => self.video_count = self.video_count + 1,
        }
        let f = MediaFile {
            path: crate::text::string_of(&cs),
            filename,
            extension,
            media_type,
            size,
        };
        let ghost before = self.files@;
        self.files.push(f);
        proof {
            assert(self.files@.drop_last() =~= before);
        }
        true
    }

    /// The result of the walk: the files in the order found, the counts of
    /// each kind, the number of distinct directories and the total size.
    pub fn finish(self) -> (r: ScanResult)
        requires
            self.wf(),
        ensures
            r.files@ == self.files(),
            r.image_count == count_type(self.files(), MediaType::Image),
            r.video_count == count_type(self.files(), MediaType::Video),
            r.directory_count == self.dirs().len(),
            r.total_bytes == self.total_bytes(),
            r.image_count + r.video_count == r.files@.len(),
    {
        proof {
            lemma_count_types_partition(self.files@);
        }
        let directory_count = self.dirs.len();
        ScanResult {
            files: self.files,
            image_count: self.image_count,
            video_count: self.video_count,
            directory_count,
            total_bytes: self.total_bytes,
        }
    }
}

/// Every file is an image or a video.
pub proof fn lemma_count_types_partition(files: Seq<MediaFile>)
    ensures
        count_type(files, MediaType::Image) + count_type(files, MediaType::Video) == files.len(),
    decreases files.len(),
{
    if files.len() > 0 {
        lemma_count_types_partition(files.drop_last());
    }
}

pub proof fn lemma_count_type_le(files: Seq<MediaFile>, t: MediaType)
    ensures
        count_type(files, t) <= files.len(),
    decreases files.len(),
{
    if files.len() > 0 {
        lemma_count_type_le(files.drop_last(), t);
    }
}

/// Whether the walk leaves `path` out because it lies under `skip_root`
/// (the output folder of an earlier run), comparing whole components.
pub fn in_skipped_subtree(path: &str, skip_root: Option<&str>) -> (r: bool)
    ensures
        r == match skip_root {
            Some(sr) => path_starts_with(path@, sr@),
            None => false,
        },
{
    match skip_root {
        Some(sr) => {
            let p = crate::text::chars_of(path);
            let b = crate::text::chars_of(sr);
            crate::paths::starts_with(&p, &b)
        },
        None => false,
    }
}

/// Whether a walk entry is taken as a file: a regular file, or a symbolic
/// link whose target is a regular file.
pub fn counts_as_file(is_file: bool, is_symlink: bool, target_is_file: bool) -> (r: bool)
    ensures
        r == (is_file || (is_symlink && target_is_file)),
{
    is_file || (is_symlink && target_is_file)
}

} // verus!
