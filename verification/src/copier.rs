//! Naming in the copy phase: per-directory sets of taken names, collision
//! renaming (`IMG.jpg`, `IMG_1.jpg`, ...), deduplication against files that
//! were already present before the run, and the run's tally.

use vstd::prelude::*;
use vstd::hash_set::StringHashSet;
use crate::text::dec;
use crate::paths::last_dot;
use crate::types::{DateGroup, MediaFile, MediaType, SkipKind, SkippedFile, UnsortableMedia};

verus! {

/// Sub-folder name (under the main output folder) that receives any media
/// whose capture date could not be determined.
pub const UNSORTABLE_FOLDER: &'static str = "unsortable";

/// `name` split at its last `.`: stem and extension. A name without a dot,
/// or whose only dot opens it, has an empty extension.
pub open spec fn split_ext_of(name: Seq<char>) -> (Seq<char>, Seq<char>) {
    let i = last_dot(name);
    if i > 0 {
        (name.subrange(0, i), name.subrange(i + 1, name.len() as int))
    } else {
        (name, Seq::empty())
    }
}

/// Splits a file name into stem and extension (without the dot).
pub fn split_ext(name: &str) -> (r: (String, String))
    ensures
        (r.0@, r.1@) == split_ext_of(name@),
{
    let cs = crate::text::chars_of(name);
    let len = cs.len(); // brings in that the length fits in a usize
    match crate::paths::last_dot_index(&cs) {
        Some(i) => {
            if i > 0 {
                let mut stem: Vec<char> = Vec::new();
                let mut k: usize = 0;
                while k < i
                    invariant
                        k <= i < cs@.len(),
                        stem@ == cs@.subrange(0, k as int),
                    decreases i - k,
                {
                    stem.push(cs[k]);
                    k = k + 1;
                    proof {
                        assert(stem@ =~= cs@.subrange(0, k as int));
                    }
                }
                let mut ext: Vec<char> = Vec::new();
                let mut k: usize = i + 1;
                while k < cs.len()
                    invariant
                        i + 1 <= k <= cs@.len(),
                        ext@ == cs@.subrange(i + 1, k as int),
                    decreases cs@.len() - k,
                {
                    ext.push(cs[k]);
                    k = k + 1;
                    proof {
                        assert(ext@ =~= cs@.subrange(i + 1, k as int));
                    }
                }
                (crate::text::string_of(&stem), crate::text::string_of(&ext))
            } else {
                (crate::text::string_of(&cs), String::new())
            }
        },
        None => (crate::text::string_of(&cs), String::new()),
    }
}

/// The `n`-th renaming of a file: `stem_n.ext`, or `stem_n` without an
/// extension.
pub open spec fn candidate_name(stem: Seq<char>, ext: Seq<char>, n: nat) -> Seq<char> {
    if ext.len() == 0 {
        stem + seq!['_'] + dec(n)
    } else {
        stem + seq!['_'] + dec(n) + seq!['.'] + ext
    }
}

/// Different numbers give different renamings.
pub proof fn lemma_candidate_injective(stem: Seq<char>, ext: Seq<char>, a: nat, b: nat)
    requires
        candidate_name(stem, ext, a) == candidate_name(stem, ext, b),
    ensures
        a == b,
{
    let tail: Seq<char> = if ext.len() == 0 { Seq::empty() } else { seq!['.'] + ext };
    let ca = candidate_name(stem, ext, a);
    let cb = candidate_name(stem, ext, b);
    assert(ca =~= stem + seq!['_'] + dec(a) + tail);
    assert(cb =~= stem + seq!['_'] + dec(b) + tail);
    let lo = stem.len() + 1;
    assert(dec(a).len() == dec(b).len());
    assert(ca.subrange(lo as int, (lo + dec(a).len()) as int) =~= dec(a));
    assert(cb.subrange(lo as int, (lo + dec(b).len()) as int) =~= dec(b));
    crate::text::lemma_dec_injective(a, b);
}

/// A finite set of `k` names cannot hold all the renamings `1..=k+1`.
pub proof fn lemma_renamings_not_all_taken(taken: Set<Seq<char>>, stem: Seq<char>, ext: Seq<char>)
    requires
        taken.finite(),
    ensures
        exists|m: int| 1 <= m <= taken.len() + 1 && !taken.contains(#[trigger] candidate_name(stem, ext, m as nat)),
{
    if forall|m: int| 1 <= m <= taken.len() + 1 ==> taken.contains(#[trigger] candidate_name(stem, ext, m as nat)) {
        lemma_all_renamings_taken_impossible(taken, stem, ext);
    }
}

proof fn lemma_all_renamings_taken_impossible(taken: Set<Seq<char>>, stem: Seq<char>, ext: Seq<char>)
    requires
        taken.finite(),
        forall|m: int| 1 <= m <= taken.len() + 1 ==> taken.contains(#[trigger] candidate_name(stem, ext, m as nat)),
    ensures
        taken.len() + 1 <= taken.len(),
{
    let k = taken.len() as int + 1;
    let x = vstd::set_lib::set_int_range(1, k + 1);
    vstd::set_lib::lemma_int_range(1, k + 1);
    let f = |m: int| candidate_name(stem, ext, m as nat);
    let y = x.map(f);
    assert forall|a: int, b: int| x.contains(a) && x.contains(b) && #[trigger] f(a) == #[trigger] f(b) implies a == b by {
        lemma_candidate_injective(stem, ext, a as nat, b as nat);
    }
    assert(vstd::relations::injective_on(f, x));
    vstd::set_lib::lemma_map_size(x, y, f);
    assert forall|c: Seq<char>| y.contains(c) implies taken.contains(c) by {
        let m = choose|m: int| x.contains(m) && f(m) == c;
        assert(taken.contains(candidate_name(stem, ext, m as nat)));
    }
    assert(y.subset_of(taken));
    vstd::set_lib::lemma_len_subset(y, taken);
}

/// A set of file names.
pub struct NameSet {
    names: StringHashSet,
}

impl View for NameSet {
    type V = Set<Seq<char>>;

    closed spec fn view(&self) -> Set<Seq<char>> {
        self.names@
    }
}

impl NameSet {
    /// The set is finite.
    pub open spec fn wf(&self) -> bool {
        self@.finite()
    }

    pub fn new() -> (r: NameSet)
        ensures
            r@ == Set::<Seq<char>>::empty(),
            r.wf(),
    {
        NameSet { names: StringHashSet::new() }
    }

    pub fn insert(&mut self, name: String)
        requires
            old(self).wf(),
        ensures
            final(self)@ == old(self)@.insert(name@),
            final(self).wf(),
    {
        self.names.insert(name);
    }

    pub fn contains(&self, name: &str) -> (r: bool)
        ensures
            r == self@.contains(name@),
    {
        self.names.contains(name)
    }

    pub fn len(&self) -> (r: usize)
        ensures
            r == self@.len(),
    {
        self.names.len()
    }
}

/// The name a file gets in a directory whose names are `taken`: its own
/// name if free, else the first free renaming `stem_n(.ext)` with `n >= 1`.
pub open spec fn is_unique_pick(taken: Set<Seq<char>>, original: Seq<char>, r: Seq<char>) -> bool {
    &&& !taken.contains(r)
    &&& !taken.contains(original) ==> r == original
    &&& taken.contains(original) ==> is_first_free_renaming(taken, split_ext_of(original).0, split_ext_of(original).1, r)
}

/// `r` is the renaming `stem_n(.ext)` with the least `n >= 1` that `taken`
/// does not hold.
pub open spec fn is_first_free_renaming(taken: Set<Seq<char>>, stem: Seq<char>, ext: Seq<char>, r: Seq<char>) -> bool {
    exists|n: nat| n >= 1 && r == candidate_name(stem, ext, n)
        && forall|m: nat| 1 <= m < n ==> taken.contains(#[trigger] candidate_name(stem, ext, m))
}

fn push_candidate(stem: &Vec<char>, ext: &Vec<char>, n: u64) -> (r: String)
    ensures
        r@ == candidate_name(stem@, ext@, n as nat),
{
    let mut v: Vec<char> = Vec::new();
    crate::text::push_all(&mut v, stem);
    v.push('_');
    crate::text::push_dec(&mut v, n);
    if ext.len() > 0 {
        v.push('.');
        crate::text::push_all(&mut v, ext);
    }
    assert(v@ =~= candidate_name(stem@, ext@, n as nat));
    crate::text::string_of(&v)
}

/// Picks a name for `original` that is not in `taken`.
pub fn pick_unique(taken: &NameSet, original: &str) -> (r: String)
    requires
        taken.wf(),
        taken@.len() < u64::MAX,
    ensures
        is_unique_pick(taken@, original@, r@),
{
    if !taken.contains(original) {
        let r = crate::text::string_of(&crate::text::chars_of(original));
        return r;
    }
    let (stem_s, ext_s) = split_ext(original);
    let stem = crate::text::chars_of(stem_s.as_str());
    let ext = crate::text::chars_of(ext_s.as_str());
    let ghost st = split_ext_of(original@).0;
    let ghost ex = split_ext_of(original@).1;
    let limit = taken.len() as u64;
    let mut n: u64 = 1;
    while n <= limit + 1
        invariant
            1 <= n <= limit + 1 + 1,
            limit == taken@.len(),
            limit < u64::MAX,
            taken.wf(),
            taken@.contains(original@),
            st == split_ext_of(original@).0,
            ex == split_ext_of(original@).1,
            stem@ == st,
            ext@ == ex,
            forall|m: nat| 1 <= m < n ==> taken@.contains(#[trigger] candidate_name(st, ex, m)),
        decreases limit + 2 - n,
    {
        let c = push_candidate(&stem, &ext, n);
        if !taken.contains(c.as_str()) {
            proof {
                assert(c@ == candidate_name(st, ex, n as nat));
                assert(n as nat >= 1 && c@ == candidate_name(st, ex, n as nat) && forall|m: nat|
                    1 <= m < n as nat ==> taken@.contains(#[trigger] candidate_name(st, ex, m)));
                assert(is_first_free_renaming(taken@, st, ex, c@));
            }
            return c;
        }
        if n == limit + 1 {
            proof {
                lemma_renamings_not_all_taken(taken@, st, ex);
                let m = choose|m: int| 1 <= m <= taken@.len() + 1 && !taken@.contains(#[trigger] candidate_name(st, ex, m as nat));
                if m < n {
                    assert(taken@.contains(candidate_name(st, ex, m as nat)));
                }
                assert(false);
            }
        }
        n = n + 1;
    }
    proof {
        lemma_renamings_not_all_taken(taken@, st, ex);
        let m = choose|m: int| 1 <= m <= taken@.len() + 1 && !taken@.contains(#[trigger] candidate_name(st, ex, m as nat));
        assert(taken@.contains(candidate_name(st, ex, m as nat)));
    }
    String::new()
}

/// The names of one destination directory: those that were on disk before
/// the run (the only valid deduplication targets) and every name taken so
/// far, including those reserved during the run.
pub struct DirState {
    pub pre_existing: NameSet,
    pub taken: NameSet,
}

/// What a reservation decided for one file.
pub enum Reserved {
    /// A file of that name and size was already there before the run.
    Dedup,
    /// Copy under this name.
    Use(String),
}

impl DirState {
    /// Every pre-existing name is taken.
    pub open spec fn wf(&self) -> bool {
        &&& self.pre_existing.wf()
        &&& self.taken.wf()
        &&& self.pre_existing@.subset_of(self.taken@)
    }

    /// A directory that held `names` when the run started.
    pub fn seed(names: &Vec<String>) -> (r: DirState)
        ensures
            r.wf(),
            forall|x: Seq<char>| r.pre_existing@.contains(x) <==> exists|i: int| 0 <= i < names@.len() && x == (#[trigger] names@[i])@,
            r.taken@ == r.pre_existing@,
    {
        let mut pre = NameSet::new();
        let mut taken = NameSet::new();
        let mut i: usize = 0;
        while i < names.len()
            invariant
                i <= names@.len(),
                pre.wf(),
                taken.wf(),
                taken@ == pre@,
                forall|x: Seq<char>| pre@.contains(x) <==> exists|j: int| 0 <= j < i && x == (#[trigger] names@[j])@,
            decreases names@.len() - i,
        {
            let n1 = names[i].clone();
            let n2 = names[i].clone();
            pre.insert(n1);
            taken.insert(n2);
            proof {
                assert forall|x: Seq<char>| pre@.contains(x) <==> exists|j: int| 0 <= j < i + 1 && x == (#[trigger] names@[j])@ by {
                    if x == names@[i as int]@ {
                        assert(0 <= i < i + 1 && x == names@[i as int]@);
                    }
                    if exists|j: int| 0 <= j < i + 1 && x == (#[trigger] names@[j])@ {
                        let j = choose|j: int| 0 <= j < i + 1 && x == (#[trigger] names@[j])@;
                        if j < i {
                            assert(0 <= j < i && x == names@[j]@);
                        }
                    }
                }
            }
            i = i + 1;
        }
        DirState { pre_existing: pre, taken }
    }

    /// Whether `name` was in the directory before the run; only then is the
    /// size on disk worth looking at.
    pub fn is_pre_existing(&self, name: &str) -> (r: bool)
        ensures
            r == self.pre_existing@.contains(name@),
    {
        self.pre_existing.contains(name)
    }

    /// Reserves a name for `original`. A file whose name was on disk before
    /// the run and whose size matches (`same_size_on_disk`) is a duplicate;
    /// any other gets its own name or the first free renaming, which is
    /// then taken.
    pub fn reserve(&mut self, original: &str, same_size_on_disk: bool) -> (r: Reserved)
        requires
            old(self).wf(),
            old(self).taken@.len() < u64::MAX,
        ensures
            final(self).wf(),
            reserve_ok(old(self).pre_existing@, old(self).taken@, original@, same_size_on_disk, r,
                final(self).pre_existing@, final(self).taken@),
    {
        if self.pre_existing.contains(original) && same_size_on_disk {
            return Reserved::Dedup;
        }
        let name = pick_unique(&self.taken, original);
        let kept = name.clone();
        self.taken.insert(name);
        Reserved::Use(kept)
    }
}

/// The reservation for `original` in a directory with pre-existing names
/// `pre` and taken names `taken`, leaving `pre2` and `taken2`.
pub open spec fn reserve_ok(
    pre: Set<Seq<char>>,
    taken: Set<Seq<char>>,
    original: Seq<char>,
    same_size: bool,
    r: Reserved,
    pre2: Set<Seq<char>>,
    taken2: Set<Seq<char>>,
) -> bool {
    &&& pre2 == pre
    &&& match r {
        Reserved::Dedup => pre.contains(original) && same_size && taken2 == taken,
        Reserved::Use(n) => !(pre.contains(original) && same_size) && is_unique_pick(taken, original, n@)
            && taken2 == taken.insert(n@),
    }
}

/// Two reservations in a row in one directory never hand out the same name.
pub proof fn reserved_names_are_distinct(
    pre: Set<Seq<char>>,
    t0: Set<Seq<char>>,
    o1: Seq<char>,
    b1: bool,
    n1: String,
    t1: Set<Seq<char>>,
    o2: Seq<char>,
    b2: bool,
    n2: String,
    t2: Set<Seq<char>>,
)
    requires
        reserve_ok(pre, t0, o1, b1, Reserved::Use(n1), pre, t1),
        reserve_ok(pre, t1, o2, b2, Reserved::Use(n2), pre, t2),
    ensures
        n1@ != n2@,
{
    assert(t1.contains(n1@));
}

/// A name reserved during the run is never treated as a duplicate later,
/// whatever the size on disk.
pub proof fn run_names_are_never_deduped(
    pre: Set<Seq<char>>,
    t0: Set<Seq<char>>,
    o1: Seq<char>,
    b1: bool,
    n1: String,
    t1: Set<Seq<char>>,
    b2: bool,
    r2: Reserved,
    t2: Set<Seq<char>>,
)
    requires
        pre.subset_of(t0),
        reserve_ok(pre, t0, o1, b1, Reserved::Use(n1), pre, t1),
        reserve_ok(pre, t1, n1@, b2, r2, pre, t2),
    ensures
        r2 is Use,
{
    assert(!t0.contains(n1@));
}

/// How the copy of one file ended.
pub enum CopyOutcome {
    /// Copied; the number of bytes counted for it.
    Copied(u64),
    /// Not copied: the same file was already there.
    Deduped,
    /// The copy failed, with the error's text.
    Failed(String),
}

/// The outcome of a copy that succeeded: the bytes the copy reported, or,
/// where the data was shared by a reflink and nothing was counted, the
/// file's logical size.
pub fn copied_outcome(reported: Option<u64>, logical_size: u64) -> (r: CopyOutcome)
    ensures
        r == CopyOutcome::Copied(match reported { Some(n) => n, None => logical_size }),
{
    match reported {
        Some(n) => CopyOutcome::Copied(n),
        None => CopyOutcome::Copied(logical_size),
    }
}

/// The tally of the copy phase.
pub struct CopyResult {
    pub folders_created: usize,
    pub files_copied: usize,
    /// Files not copied because the same name and size was already at the
    /// destination before the run.
    pub files_skipped: usize,
    pub bytes_copied: u64,
    /// Files copied into the unsortable folder.
    pub unsortable_copied: usize,
    /// Every file that did not end up in a date folder, and why.
    pub skipped: Vec<SkippedFile>,
}

pub open spec fn copy_failed_reason(err: Seq<char>) -> Seq<char> {
    "copy failed: "@ + err
}

pub open spec fn already_present_reason(reason: Seq<char>) -> Seq<char> {
    reason + " (already present in unsortable/)"@
}

pub open spec fn unsortable_failed_reason(reason: Seq<char>, err: Seq<char>) -> Seq<char> {
    reason + " \u{2014} and copy into unsortable/ also failed: "@ + err
}

/// `s` records `path`, `reason`, `kind` and `media_type`.
pub open spec fn skip_record_is(s: SkippedFile, path: Seq<char>, reason: Seq<char>, kind: SkipKind, media_type: MediaType) -> bool {
    &&& s.path@ == path
    &&& s.reason@ == reason
    &&& s.kind == kind
    &&& s.media_type == media_type
}

impl Default for CopyResult {
    fn default() -> (r: CopyResult)
        ensures
            r.is_empty(),
    {
        CopyResult::new()
    }
}

impl CopyResult {
    /// Nothing counted yet.
    pub open spec fn is_empty(&self) -> bool {
        &&& self.folders_created == 0
        &&& self.files_copied == 0
        &&& self.files_skipped == 0
        &&& self.bytes_copied == 0
        &&& self.unsortable_copied == 0
        &&& self.skipped@.len() == 0
    }

    pub fn new() -> (r: CopyResult)
        ensures
            r.is_empty(),
    {
        CopyResult {
            folders_created: 0,
            files_copied: 0,
            files_skipped: 0,
            bytes_copied: 0,
            unsortable_copied: 0,
            skipped: Vec::new(),
        }
    }

    /// Counts a destination folder that had to be made.
    pub fn record_folder(&mut self, was_created: bool)
        requires
            old(self).folders_created < usize::MAX,
        ensures
            final(self).folders_created == old(self).folders_created + if was_created { 1int } else { 0int },
            final(self).files_copied == old(self).files_copied,
            final(self).files_skipped == old(self).files_skipped,
            final(self).bytes_copied == old(self).bytes_copied,
            final(self).unsortable_copied == old(self).unsortable_copied,
            final(self).skipped@ == old(self).skipped@,
    {
        if was_created {
            self.folders_created = self.folders_created + 1;
        }
    }

    /// Counts the copy of `file` into its date folder.
    pub fn record_dated(&mut self, file: &MediaFile, outcome: CopyOutcome)
        requires
            old(self).files_copied < usize::MAX,
            old(self).files_skipped < usize::MAX,
        ensures
            final(self).folders_created == old(self).folders_created,
            final(self).unsortable_copied == old(self).unsortable_copied,
            match outcome {
                CopyOutcome::Copied(n) => {
                    &&& final(self).files_copied == old(self).files_copied + 1
                    &&& final(self).files_skipped == old(self).files_skipped
                    &&& final(self).bytes_copied == (old(self).bytes_copied + n) % 0x1_0000_0000_0000_0000
                    &&& final(self).skipped@ == old(self).skipped@
                },
                CopyOutcome::Deduped => {
                    &&& final(self).files_copied == old(self).files_copied
                    &&& final(self).files_skipped == old(self).files_skipped + 1
                    &&& final(self).bytes_copied == old(self).bytes_copied
                    &&& final(self).skipped@ == old(self).skipped@
                },
                CopyOutcome::Failed(e) => {
                    &&& final(self).files_copied == old(self).files_copied
                    &&& final(self).files_skipped == old(self).files_skipped
                    &&& final(self).bytes_copied == old(self).bytes_copied
                    &&& final(self).skipped@.len() == old(self).skipped@.len() + 1
                    &&& final(self).skipped@.take(old(self).skipped@.len() as int) == old(self).skipped@
                    &&& skip_record_is(final(self).skipped@.last(), file.path@, copy_failed_reason(e@),
                        SkipKind::CopyFailed, file.media_type)
                },
            },
    {
        match outcome {
            CopyOutcome::Copied(n) => {
                self.files_copied = self.files_copied + 1;
                self.bytes_copied = self.bytes_copied.wrapping_add(n);
            },
            CopyOutcome::Deduped => {
                self.files_skipped = self.files_skipped + 1;
            },
            CopyOutcome::Failed(e) => {
                let mut v: Vec<char> = Vec::new();
                crate::text::push_str(&mut v, "copy failed: ");
                crate::text::push_str(&mut v, e.as_str());
                let reason = crate::text::string_of(&v);
                proof {
                    assert(v@ =~= copy_failed_reason(e@));
                }
                let rec = SkippedFile {
                    path: file.path.clone(),
                    reason,
                    kind: SkipKind::CopyFailed,
                    media_type: file.media_type,
                };
                let ghost before = self.skipped@;
                self.skipped.push(rec);
                proof {
                    assert(self.skipped@.take(before.len() as int) =~= before);
                }
            },
        }
    }

    /// Counts the copy of an unsortable file into the unsortable folder.
    /// Every such file is recorded among the skipped, with its reason.
    pub fn record_unsortable(&mut self, u: &UnsortableMedia, outcome: CopyOutcome)
        requires
            old(self).unsortable_copied < usize::MAX,
            old(self).files_skipped < usize::MAX,
        ensures
            final(self).folders_created == old(self).folders_created,
            final(self).files_copied == old(self).files_copied,
            final(self).skipped@.len() == old(self).skipped@.len() + 1,
            final(self).skipped@.take(old(self).skipped@.len() as int) == old(self).skipped@,
            match outcome {
                CopyOutcome::Copied(n) => {
                    &&& final(self).unsortable_copied == old(self).unsortable_copied + 1
                    &&& final(self).files_skipped == old(self).files_skipped
                    &&& final(self).bytes_copied == (old(self).bytes_copied + n) % 0x1_0000_0000_0000_0000
                    &&& skip_record_is(final(self).skipped@.last(), u.file.path@, u.reason@,
                        SkipKind::Unsortable, u.file.media_type)
                },
                CopyOutcome::Deduped => {
                    &&& final(self).unsortable_copied == old(self).unsortable_copied
                    &&& final(self).files_skipped == old(self).files_skipped + 1
                    &&& final(self).bytes_copied == old(self).bytes_copied
                    &&& skip_record_is(final(self).skipped@.last(), u.file.path@,
                        already_present_reason(u.reason@), SkipKind::Unsortable, u.file.media_type)
                },
                CopyOutcome::Failed(e) => {
                    &&& final(self).unsortable_copied == old(self).unsortable_copied
                    &&& final(self).files_skipped == old(self).files_skipped
                    &&& final(self).bytes_copied == old(self).bytes_copied
                    &&& skip_record_is(final(self).skipped@.last(), u.file.path@,
                        unsortable_failed_reason(u.reason@, e@), SkipKind::CopyFailed, u.file.media_type)
                },
            },
    {
        let mut v: Vec<char> = Vec::new();
        crate::text::push_str(&mut v, u.reason.as_str());
        let kind = match &outcome {
            CopyOutcome::Copied(n) => {
                self.unsortable_copied = self.unsortable_copied + 1;
                self.bytes_copied = self.bytes_copied.wrapping_add(*n);
                SkipKind::Unsortable
            },
            CopyOutcome::Deduped => {
                self.files_skipped = self.files_skipped + 1;
                crate::text::push_str(&mut v, " (already present in unsortable/)");
                SkipKind::Unsortable
            },
            CopyOutcome::Failed(e) => {
                crate::text::push_str(&mut v, " \u{2014} and copy into unsortable/ also failed: ");
                crate::text::push_str(&mut v, e.as_str());
                SkipKind::CopyFailed
            },
        };
        proof {
            match &outcome {
                CopyOutcome::Copied(n) => {
                    assert(v@ =~= u.reason@);
                },
                CopyOutcome::Deduped => {
                    assert(v@ =~= already_present_reason(u.reason@));
                },
                CopyOutcome::Failed(e) => {
                    assert(v@ =~= unsortable_failed_reason(u.reason@, e@));
                },
            }
        }
        let rec = SkippedFile {
            path: u.file.path.clone(),
            reason: crate::text::string_of(&v),
            kind,
            media_type: u.file.media_type,
        };
        let ghost before = self.skipped@;
        self.skipped.push(rec);
        proof {
            assert(self.skipped@.take(before.len() as int) =~= before);
        }
    }
}

/// The (group, file) index pairs of the first `k` groups, group by group
/// and in file order within a group.
pub open spec fn work_pairs(groups: Seq<DateGroup>, k: int) -> Seq<(usize, usize)>
    decreases k,
{
    if k <= 0 {
        Seq::empty()
    } else {
        work_pairs(groups, k - 1) + Seq::new(groups[k - 1].files@.len(), |j: int| ((k - 1) as usize, j as usize))
    }
}

/// The work list names each file of each group, and nothing else.
pub proof fn work_pairs_cover_every_file(groups: Seq<DateGroup>, k: int, i: int, j: int)
    requires
        0 <= k <= groups.len(),
        k <= usize::MAX,
        forall|g: int| 0 <= g < groups.len() ==> (#[trigger] groups[g]).files@.len() <= usize::MAX,
    ensures
        work_pairs(groups, k).contains((i as usize, j as usize)) && 0 <= i <= usize::MAX && 0 <= j <= usize::MAX
            <==> 0 <= i < k && 0 <= j < groups[i].files@.len(),
    decreases k,
{
    if k > 0 {
        work_pairs_cover_every_file(groups, k - 1, i, j);
        let head = work_pairs(groups, k - 1);
        let tail = Seq::new(groups[k - 1].files@.len(), |jj: int| ((k - 1) as usize, jj as usize));
        assert(work_pairs(groups, k) == head + tail);
        if 0 <= i < k && 0 <= j < groups[i].files@.len() {
            if i == k - 1 {
                assert(tail[j] == (i as usize, j as usize));
                assert((head + tail)[head.len() + j] == tail[j]);
            } else {
                let x = choose|x: int| 0 <= x < head.len() && head[x] == (i as usize, j as usize);
                assert((head + tail)[x] == head[x]);
            }
        }
        if work_pairs(groups, k).contains((i as usize, j as usize)) && 0 <= i <= usize::MAX && 0 <= j <= usize::MAX {
            let x = choose|x: int| 0 <= x < (head + tail).len() && (head + tail)[x] == (i as usize, j as usize);
            if x >= head.len() {
                assert((head + tail)[x] == tail[x - head.len()]);
            } else {
                assert((head + tail)[x] == head[x]);
                assert(head.contains((i as usize, j as usize)));
            }
        }
    }
}

/// Every file of every group, as (group, file) index pairs: the work list
/// of the copy phase.
pub fn copy_work(groups: &Vec<DateGroup>) -> (r: Vec<(usize, usize)>)
    ensures
        r@ == work_pairs(groups@, groups@.len() as int),
{
    let mut r: Vec<(usize, usize)> = Vec::new();
    let mut i: usize = 0;
    while i < groups.len()
        invariant
            i <= groups@.len(),
            r@ == work_pairs(groups@, i as int),
        decreases groups@.len() - i,
    {
        let n = groups[i].files.len();
        let ghost base = r@;
        let mut j: usize = 0;
        while j < n
            invariant
                i < groups@.len(),
                n == groups@[i as int].files@.len(),
                j <= n,
                base == work_pairs(groups@, i as int),
                r@ == base + Seq::new(j as nat, |jj: int| (i, jj as usize)),
            decreases n - j,
        {
            r.push((i, j));
            j = j + 1;
            proof {
                assert(r@ =~= base + Seq::new(j as nat, |jj: int| (i, jj as usize)));
            }
        }
        proof {
            assert(r@ =~= work_pairs(groups@, i + 1));
        }
        i = i + 1;
    }
    r
}

/// The destination folders, relative to the output root, that the copy
/// phase prepares: each group's folder, then the unsortable folder where
/// there are unsortable files.
pub open spec fn copy_dirs_of(groups: Seq<DateGroup>, has_unsortable: bool) -> Seq<Seq<char>> {
    Seq::new(groups.len(), |i: int| groups[i].folder_path@) + if has_unsortable {
        seq![UNSORTABLE_FOLDER@]
    } else {
        Seq::empty()
    }
}

pub fn copy_dirs(groups: &Vec<DateGroup>, has_unsortable: bool) -> (r: Vec<String>)
    ensures
        r@.map_values(|s: String| s@) == copy_dirs_of(groups@, has_unsortable),
{
    let mut r: Vec<String> = Vec::new();
    let mut i: usize = 0;
    while i < groups.len()
        invariant
            i <= groups@.len(),
            r@.len() == i,
            forall|k: int| 0 <= k < i ==> (#[trigger] r@[k])@ == groups@[k].folder_path@,
        decreases groups@.len() - i,
    {
        r.push(groups[i].folder_path.clone());
        i = i + 1;
    }
    if has_unsortable {
        r.push(crate::text::string_of(&crate::text::chars_of(UNSORTABLE_FOLDER)));
    }
    proof {
        assert(r@.map_values(|s: String| s@) =~= copy_dirs_of(groups@, has_unsortable));
    }
    r
}

/// The view of a skipped-file record: path, reason, kind and media type.
pub open spec fn skip_view(s: SkippedFile) -> (Seq<char>, Seq<char>, SkipKind, MediaType) {
    (s.path@, s.reason@, s.kind, s.media_type)
}

pub open spec fn skip_views(v: Seq<SkippedFile>) -> Seq<(Seq<char>, Seq<char>, SkipKind, MediaType)> {
    v.map_values(|s: SkippedFile| skip_view(s))
}

/// How many outcomes are copies.
pub open spec fn copied_count(outs: Seq<CopyOutcome>) -> nat
    decreases outs.len(),
{
    if outs.len() == 0 {
        0
    } else {
        copied_count(outs.drop_last()) + if outs.last() is Copied { 1nat } else { 0nat }
    }
}

/// How many outcomes are duplicates left in place.
pub open spec fn deduped_count(outs: Seq<CopyOutcome>) -> nat
    decreases outs.len(),
{
    if outs.len() == 0 {
        0
    } else {
        deduped_count(outs.drop_last()) + if outs.last() is Deduped { 1nat } else { 0nat }
    }
}

/// How many outcomes are failed copies.
pub open spec fn failed_count(outs: Seq<CopyOutcome>) -> nat
    decreases outs.len(),
{
    if outs.len() == 0 {
        0
    } else {
        failed_count(outs.drop_last()) + if outs.last() is Failed { 1nat } else { 0nat }
    }
}

/// The bytes counted by the copies.
pub open spec fn copied_bytes(outs: Seq<CopyOutcome>) -> nat
    decreases outs.len(),
{
    if outs.len() == 0 {
        0
    } else {
        copied_bytes(outs.drop_last()) + match outs.last() {
            CopyOutcome::Copied(n) => n as nat,
            _ => 0nat,
        }
    }
}

/// The records of the failed copies of `files` (the `k`-th outcome is that
/// of the `k`-th file), in order.
pub open spec fn dated_failures(files: Seq<MediaFile>, outs: Seq<CopyOutcome>) -> Seq<
    (Seq<char>, Seq<char>, SkipKind, MediaType),
>
    decreases outs.len(),
{
    if outs.len() == 0 {
        Seq::empty()
    } else {
        let k = outs.len() - 1;
        let rest = dated_failures(files, outs.drop_last());
        match outs.last() {
            CopyOutcome::Failed(e) => rest.push(
                (files[k].path@, copy_failed_reason(e@), SkipKind::CopyFailed, files[k].media_type),
            ),
            _ => rest,
        }
    }
}

/// The record that an unsortable file gets for its outcome.
pub open spec fn unsortable_record(u: UnsortableMedia, o: CopyOutcome) -> (Seq<char>, Seq<char>, SkipKind, MediaType) {
    match o {
        CopyOutcome::Copied(_) => (u.file.path@, u.reason@, SkipKind::Unsortable, u.file.media_type),
        CopyOutcome::Deduped => (u.file.path@, already_present_reason(u.reason@), SkipKind::Unsortable, u.file.media_type),
        CopyOutcome::Failed(e) => (
            u.file.path@,
            unsortable_failed_reason(u.reason@, e@),
            SkipKind::CopyFailed,
            u.file.media_type,
        ),
    }
}

/// The records of a run of unsortable files, one each, in order.
pub open spec fn unsortable_records(us: Seq<UnsortableMedia>, outs: Seq<CopyOutcome>) -> Seq<
    (Seq<char>, Seq<char>, SkipKind, MediaType),
> {
    Seq::new(outs.len(), |k: int| unsortable_record(us[k], outs[k]))
}

/// The file that the `k`-th entry of a work list names.
pub open spec fn work_files(groups: Seq<DateGroup>, work: Seq<(usize, usize)>) -> Seq<MediaFile> {
    Seq::new(work.len(), |k: int| groups[work[k].0 as int].files@[work[k].1 as int].file)
}

/// Every outcome is a copy, a duplicate or a failure, and each failure
/// leaves one record.
pub proof fn outcomes_partition(files: Seq<MediaFile>, outs: Seq<CopyOutcome>)
    ensures
        copied_count(outs) + deduped_count(outs) + failed_count(outs) == outs.len(),
        dated_failures(files, outs).len() == failed_count(outs),
    decreases outs.len(),
{
    if outs.len() > 0 {
        outcomes_partition(files, outs.drop_last());
    }
}

/// How many entries of a work list belong to group `g`.
pub open spec fn count_in_group(work: Seq<(usize, usize)>, g: int) -> nat
    decreases work.len(),
{
    if work.len() == 0 {
        0
    } else {
        count_in_group(work.drop_last(), g) + if work.last().0 as int == g { 1nat } else { 0nat }
    }
}

/// How many outcomes of group `g` satisfy `kind` (0: copied, 1: duplicate,
/// 2: failed).
pub open spec fn group_outcomes(work: Seq<(usize, usize)>, outs: Seq<CopyOutcome>, g: int, kind: int) -> nat
    decreases outs.len(),
{
    if outs.len() == 0 {
        0
    } else {
        let k = outs.len() - 1;
        let hit = work[k].0 as int == g && match outs.last() {
            CopyOutcome::Copied(_) => kind == 0,
            CopyOutcome::Deduped => kind == 1,
            CopyOutcome::Failed(_) => kind == 2,
        };
        group_outcomes(work, outs.drop_last(), g, kind) + if hit { 1nat } else { 0nat }
    }
}

proof fn lemma_group_outcomes_sum(work: Seq<(usize, usize)>, outs: Seq<CopyOutcome>, g: int)
    requires
        outs.len() == work.len(),
    ensures
        group_outcomes(work, outs, g, 0) + group_outcomes(work, outs, g, 1) + group_outcomes(work, outs, g, 2)
            == count_in_group(work, g),
    decreases outs.len(),
{
    if outs.len() > 0 {
        lemma_group_outcomes_sum(work.drop_last(), outs.drop_last(), g);
        lemma_group_outcomes_prefix(work, outs.drop_last(), g, 0);
        lemma_group_outcomes_prefix(work, outs.drop_last(), g, 1);
        lemma_group_outcomes_prefix(work, outs.drop_last(), g, 2);
    }
}

/// Only the first `outs.len()` entries of the work list matter.
proof fn lemma_group_outcomes_prefix(work: Seq<(usize, usize)>, outs: Seq<CopyOutcome>, g: int, kind: int)
    requires
        outs.len() < work.len(),
    ensures
        group_outcomes(work, outs, g, kind) == group_outcomes(work.drop_last(), outs, g, kind),
    decreases outs.len(),
{
    if outs.len() > 0 {
        lemma_group_outcomes_prefix(work, outs.drop_last(), g, kind);
        assert(work[outs.len() - 1] == work.drop_last()[outs.len() - 1]);
    }
}

proof fn lemma_count_in_group_concat(a: Seq<(usize, usize)>, b: Seq<(usize, usize)>, g: int)
    ensures
        count_in_group(a + b, g) == count_in_group(a, g) + count_in_group(b, g),
    decreases b.len(),
{
    if b.len() == 0 {
        assert(a + b =~= a);
    } else {
        lemma_count_in_group_concat(a, b.drop_last(), g);
        assert((a + b).drop_last() =~= a + b.drop_last());
    }
}

proof fn lemma_count_in_run(m: nat, i: int, g: int)
    requires
        0 <= i <= usize::MAX,
    ensures
        count_in_group(Seq::new(m, |jj: int| (i as usize, jj as usize)), g) == if i == g { m } else { 0 },
    decreases m,
{
    if m > 0 {
        lemma_count_in_run((m - 1) as nat, i, g);
        assert(Seq::new(m, |jj: int| (i as usize, jj as usize)).drop_last() =~= Seq::new(
            (m - 1) as nat,
            |jj: int| (i as usize, jj as usize),
        ));
    }
}

proof fn lemma_work_pairs_in_group(groups: Seq<DateGroup>, k: int, g: int)
    requires
        0 <= k <= groups.len(),
        k <= usize::MAX,
    ensures
        count_in_group(work_pairs(groups, k), g) == if 0 <= g < k { groups[g].files@.len() } else { 0 },
    decreases k,
{
    if k > 0 {
        lemma_work_pairs_in_group(groups, k - 1, g);
        let tail = Seq::new(groups[k - 1].files@.len(), |jj: int| ((k - 1) as usize, jj as usize));
        lemma_count_in_group_concat(work_pairs(groups, k - 1), tail, g);
        lemma_count_in_run(groups[k - 1].files@.len(), k - 1, g);
    }
}

/// Each date folder is accounted for: over the work list of the copy
/// phase, the copies, duplicates and failures of a group's files add up to
/// the number of its files.
pub proof fn each_folder_accounted(groups: Seq<DateGroup>, outs: Seq<CopyOutcome>, g: int)
    requires
        groups.len() <= usize::MAX,
        outs.len() == work_pairs(groups, groups.len() as int).len(),
        0 <= g < groups.len(),
    ensures
        group_outcomes(work_pairs(groups, groups.len() as int), outs, g, 0) + group_outcomes(
            work_pairs(groups, groups.len() as int),
            outs,
            g,
            1,
        ) + group_outcomes(work_pairs(groups, groups.len() as int), outs, g, 2) == groups[g].files@.len(),
{
    let w = work_pairs(groups, groups.len() as int);
    lemma_group_outcomes_sum(w, outs, g);
    lemma_work_pairs_in_group(groups, groups.len() as int, g);
}

impl CopyResult {
    /// Counts the outcomes of a run of dated copies: the `k`-th outcome is
    /// that of the file named by the `k`-th entry of `work`.
    pub fn record_dated_run(&mut self, groups: &Vec<DateGroup>, work: &Vec<(usize, usize)>, outcomes: Vec<CopyOutcome>)
        requires
            outcomes@.len() == work@.len(),
            forall|k: int| 0 <= k < work@.len() ==> (#[trigger] work@[k]).0 < groups@.len() && work@[k].1
                < groups@[work@[k].0 as int].files@.len(),
            old(self).files_copied + work@.len() <= usize::MAX,
            old(self).files_skipped + work@.len() <= usize::MAX,
        ensures
            final(self).folders_created == old(self).folders_created,
            final(self).unsortable_copied == old(self).unsortable_copied,
            final(self).files_copied == old(self).files_copied + copied_count(outcomes@),
            final(self).files_skipped == old(self).files_skipped + deduped_count(outcomes@),
            final(self).bytes_copied == (old(self).bytes_copied + copied_bytes(outcomes@)) % 0x1_0000_0000_0000_0000,
            skip_views(final(self).skipped@) == skip_views(old(self).skipped@) + dated_failures(
                work_files(groups@, work@),
                outcomes@,
            ),
    {
        let ghost outs = outcomes@;
        let ghost files = work_files(groups@, work@);
        let ghost start = *self;
        let mut outcomes = outcomes;
        let mut k: usize = 0;
        while k < work.len()
            invariant
                k <= work@.len(),
                outcomes@.len() == work@.len(),
                outs.len() == work@.len(),
                files == work_files(groups@, work@),
                forall|i: int| k <= i < outs.len() ==> #[trigger] outcomes@[i] == outs[i],
                forall|i: int| 0 <= i < work@.len() ==> (#[trigger] work@[i]).0 < groups@.len() && work@[i].1
                    < groups@[work@[i].0 as int].files@.len(),
                start.files_copied + work@.len() <= usize::MAX,
                start.files_skipped + work@.len() <= usize::MAX,
                self.folders_created == start.folders_created,
                self.unsortable_copied == start.unsortable_copied,
                self.files_copied == start.files_copied + copied_count(outs.take(k as int)),
                self.files_skipped == start.files_skipped + deduped_count(outs.take(k as int)),
                self.bytes_copied == (start.bytes_copied + copied_bytes(outs.take(k as int))) % 0x1_0000_0000_0000_0000,
                skip_views(self.skipped@) == skip_views(start.skipped@) + dated_failures(files, outs.take(k as int)),
            decreases work@.len() - k,
        {
            let (g, f) = work[k];
            let mut o = CopyOutcome::Deduped;
            outcomes.set_and_swap(k, &mut o);
            proof {
                outcomes_partition(files, outs.take(k as int));
                let t = outs.take(k + 1);
                assert(t.drop_last() =~= outs.take(k as int));
                assert(t.last() == o);
                assert(files[k as int] == groups@[g as int].files@[f as int].file);
            }
            let ghost before = self.skipped@;
            let ghost bytes0 = self.bytes_copied;
            let ghost og = o;
            self.record_dated(&groups[g].files[f].file, o);
            proof {
                let t = outs.take(k + 1);
                match og {
                    CopyOutcome::Failed(e) => {
                        assert(self.skipped@ =~= before.push(self.skipped@.last()));
                        assert(skip_views(self.skipped@) =~= skip_views(before).push(skip_view(self.skipped@.last())));
                    },
                    CopyOutcome::Copied(n) => {
                        assert(self.bytes_copied == (start.bytes_copied + copied_bytes(t)) % 0x1_0000_0000_0000_0000)
                            by (nonlinear_arith)
                            requires
                                bytes0 == (start.bytes_copied + copied_bytes(outs.take(k as int))) % 0x1_0000_0000_0000_0000,
                                self.bytes_copied == (bytes0 + n) % 0x1_0000_0000_0000_0000,
                                copied_bytes(t) == copied_bytes(outs.take(k as int)) + n,
                        ;
                    },
                    CopyOutcome::Deduped => {},
                }
            }
            k = k + 1;
        }
        proof {
            assert(outs.take(work@.len() as int) =~= outs);
        }
    }

    /// Counts the outcomes of a run of copies into the unsortable folder:
    /// the `k`-th outcome is that of the `k`-th file, and every file gets
    /// its record.
    pub fn record_unsortable_run(&mut self, unsortable: &Vec<UnsortableMedia>, outcomes: Vec<CopyOutcome>)
        requires
            outcomes@.len() == unsortable@.len(),
            old(self).unsortable_copied + unsortable@.len() <= usize::MAX,
            old(self).files_skipped + unsortable@.len() <= usize::MAX,
        ensures
            final(self).folders_created == old(self).folders_created,
            final(self).files_copied == old(self).files_copied,
            final(self).unsortable_copied == old(self).unsortable_copied + copied_count(outcomes@),
            final(self).files_skipped == old(self).files_skipped + deduped_count(outcomes@),
            final(self).bytes_copied == (old(self).bytes_copied + copied_bytes(outcomes@)) % 0x1_0000_0000_0000_0000,
            skip_views(final(self).skipped@) == skip_views(old(self).skipped@) + unsortable_records(
                unsortable@,
                outcomes@,
            ),
    {
        let ghost outs = outcomes@;
        let ghost start = *self;
        let mut outcomes = outcomes;
        let mut k: usize = 0;
        while k < unsortable.len()
            invariant
                k <= unsortable@.len(),
                outcomes@.len() == unsortable@.len(),
                outs.len() == unsortable@.len(),
                forall|i: int| k <= i < outs.len() ==> #[trigger] outcomes@[i] == outs[i],
                start.unsortable_copied + unsortable@.len() <= usize::MAX,
                start.files_skipped + unsortable@.len() <= usize::MAX,
                self.folders_created == start.folders_created,
                self.files_copied == start.files_copied,
                self.unsortable_copied == start.unsortable_copied + copied_count(outs.take(k as int)),
                self.files_skipped == start.files_skipped + deduped_count(outs.take(k as int)),
                self.bytes_copied == (start.bytes_copied + copied_bytes(outs.take(k as int))) % 0x1_0000_0000_0000_0000,
                skip_views(self.skipped@) == skip_views(start.skipped@) + unsortable_records(
                    unsortable@,
                    outs.take(k as int),
                ),
            decreases unsortable@.len() - k,
        {
            let mut o = CopyOutcome::Deduped;
            outcomes.set_and_swap(k, &mut o);
            proof {
                outcomes_partition(Seq::empty(), outs.take(k as int));
                let t = outs.take(k + 1);
                assert(t.drop_last() =~= outs.take(k as int));
                assert(t.last() == o);
            }
            let ghost before = self.skipped@;
            let ghost bytes0 = self.bytes_copied;
            let ghost og = o;
            self.record_unsortable(&unsortable[k], o);
            proof {
                let t = outs.take(k + 1);
                assert(self.skipped@ =~= before.push(self.skipped@.last()));
                assert(skip_views(self.skipped@) =~= skip_views(before).push(skip_view(self.skipped@.last())));
                assert(unsortable_records(unsortable@, t) =~= unsortable_records(unsortable@, outs.take(k as int)).push(
                    unsortable_record(unsortable@[k as int], og),
                ));
                match og {
                    CopyOutcome::Copied(n) => {
                        assert(self.bytes_copied == (start.bytes_copied + copied_bytes(t)) % 0x1_0000_0000_0000_0000)
                            by (nonlinear_arith)
                            requires
                                bytes0 == (start.bytes_copied + copied_bytes(outs.take(k as int))) % 0x1_0000_0000_0000_0000,
                                self.bytes_copied == (bytes0 + n) % 0x1_0000_0000_0000_0000,
                                copied_bytes(t) == copied_bytes(outs.take(k as int)) + n,
                        ;
                    },
                    _ => {},
                }
            }
            k = k + 1;
        }
        proof {
            assert(outs.take(unsortable@.len() as int) =~= outs);
        }
    }
}

/// What the copy phase reports of each file it handled.
#[derive(Debug, Clone, Copy)]
pub struct CopyEvent<'a> {
    pub final_name: &'a str,
    pub dest_dir: &'a str,
    pub bytes: u64,
    pub deduped: bool,
}

/// Hook that the copy phase calls for each file; does nothing unless
/// overridden.
pub trait CopyProgress {
    fn on_copy(&self, event: CopyEvent<'_>) {
    }
}

/// Progress hook that does nothing.
pub struct NoopProgress;

impl CopyProgress for NoopProgress {
}

} // verus!
