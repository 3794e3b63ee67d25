//! What the end-of-run report computes: visible widths of styled text,
//! column and leader layout, tones, wording, and the figures of the
//! summary card.

use vstd::prelude::*;
use crate::text::dec;
use crate::types::{DateGroup, LocalDateTime, MediaFile, MediaType, SkipKind, SkippedFile};
use crate::extensions::ffprobe_exts;
use crate::progress::MetaSnapshot;

verus! {

/// Width in columns of the summary card.
pub const CARD_WIDTH: usize = 67;
/// Width of the label column of the input/output table.
pub const COL_LABEL: usize = 22;
/// Width of each number column of the input/output table.
pub const COL_NUM: usize = 14;
/// Width up to which a key/value label is filled with dots.
pub const KV_LABEL_WIDTH: usize = 44;
/// How many skipped files the report lists one by one.
pub const MAX_PRINTED: usize = 50;

/// What `console::strip_ansi_codes` leaves of a text.
pub uninterp spec fn ansi_stripped(s: Seq<char>) -> Seq<char>;

/// Whether `s` holds a character that can open an ANSI escape sequence.
pub open spec fn has_escape(s: Seq<char>) -> bool {
    exists|i: int| 0 <= i < s.len() && (s[i] == '\u{1b}' || s[i] == '\u{9b}')
}

/// `console::strip_ansi_codes`: the text without its ANSI escape
/// sequences. Claimed: the result is a function of the text, and a text
/// with no ESC (U+001B) or CSI (U+009B) character comes back unchanged
/// (the source returns the borrowed input when it finds no sequence, and
/// a sequence starts only at one of those two characters).
#[verifier::external_body]
fn strip_ansi(s: &str) -> (r: String)
    ensures
        r@ == ansi_stripped(s@),
        !has_escape(s@) ==> r@ == s@,
{
    console::strip_ansi_codes(s).into_owned()
}

/// Terminal columns taken by one character: none for the emoji variation
/// selector, the zero-width joiner and combining marks; one for ASCII, box
/// drawing and arrows; two for anything else.
pub open spec fn cell_width(c: char) -> nat {
    if c == '\u{FE0F}' || c == '\u{200D}' {
        0
    } else if c <= '\u{7F}' {
        1
    } else if ('\u{2500}' <= c && c <= '\u{257F}') || ('\u{2190}' <= c && c <= '\u{21FF}') {
        1
    } else if '\u{0300}' <= c && c <= '\u{036F}' {
        0
    } else {
        2
    }
}

/// Columns taken by a text.
pub open spec fn cells(s: Seq<char>) -> nat
    decreases s.len(),
{
    if s.len() == 0 {
        0
    } else {
        cells(s.drop_last()) + cell_width(s.last())
    }
}

/// `n`, or `usize::MAX` where it is larger.
pub open spec fn cap(n: nat) -> nat {
    if n <= usize::MAX { n } else { usize::MAX as nat }
}

/// The visible width of `s`: the columns of what is left once its ANSI
/// escape sequences are removed (capped at `usize::MAX`).
pub open spec fn visible_width(s: Seq<char>) -> nat {
    cap(cells(ansi_stripped(s)))
}

fn char_cells(c: char) -> (r: usize)
    ensures
        r == cell_width(c),
{
    if c == '\u{FE0F}' || c == '\u{200D}' {
        0
    } else if c <= '\u{7F}' {
        1
    } else if ('\u{2500}' <= c && c <= '\u{257F}') || ('\u{2190}' <= c && c <= '\u{21FF}') {
        1
    } else if '\u{0300}' <= c && c <= '\u{036F}' {
        0
    } else {
        2
    }
}

pub fn visible_len(s: &str) -> (r: usize)
    ensures
        r == visible_width(s@),
{
    let stripped = strip_ansi(s);
    let cs = crate::text::chars_of(stripped.as_str());
    let mut w: usize = 0;
    let mut i: usize = 0;
    while i < cs.len()
        invariant
            i <= cs@.len(),
            cs@ == ansi_stripped(s@),
            w == cap(cells(cs@.take(i as int))),
        decreases cs@.len() - i,
    {
        let c = cs[i];
        let k = char_cells(c);
        proof {
            assert(cs@.take(i + 1).drop_last() =~= cs@.take(i as int));
        }
        w = w.saturating_add(k);
        i = i + 1;
    }
    proof {
        assert(cs@.take(cs@.len() as int) =~= cs@);
    }
    w
}

/// `n` spaces.
pub open spec fn spaces(n: nat) -> Seq<char> {
    Seq::new(n, |i: int| ' ')
}

fn push_repeat(out: &mut Vec<char>, c: char, n: usize)
    ensures
        final(out)@ == old(out)@ + Seq::new(n as nat, |i: int| c),
{
    let mut i: usize = 0;
    while i < n
        invariant
            i <= n,
            out@ == old(out)@ + Seq::new(i as nat, |k: int| c),
        decreases n - i,
    {
        out.push(c);
        i = i + 1;
        proof {
            assert(out@ =~= old(out)@ + Seq::new(i as nat, |k: int| c));
        }
    }
}

/// `a - b`, or zero where `b` is larger.
pub open spec fn sat_sub(a: int, b: int) -> nat {
    if a >= b { (a - b) as nat } else { 0 }
}

/// `s` right-aligned in `width` visible columns.
pub fn right_align(s: &str, width: usize) -> (r: String)
    ensures
        r@ == spaces(sat_sub(width as int, visible_width(s@) as int)) + s@,
{
    let visible = visible_len(s);
    let pad = width.saturating_sub(visible);
    let mut out: Vec<char> = Vec::new();
    push_repeat(&mut out, ' ', pad);
    crate::text::push_str(&mut out, s);
    crate::text::string_of(&out)
}

/// Spaces in front of a title to centre it on the card.
pub fn centre_pad(text: &str) -> (r: usize)
    ensures
        r == sat_sub(CARD_WIDTH as int, visible_width(text@) as int) / 2,
{
    CARD_WIDTH.saturating_sub(visible_len(text)) / 2
}

/// Dashes after a section header `"  {emoji}  {label}  "` so that the line
/// reaches the card's edge; at least three.
pub fn section_dashes(emoji: &str, label: &str) -> (r: usize)
    ensures
        r == vstd::math::max(
            sat_sub(CARD_WIDTH as int, (6 + visible_width(emoji@) + visible_width(label@)) as int) as int,
            3,
        ),
{
    let prefix_visible = 6usize.saturating_add(visible_len(emoji)).saturating_add(visible_len(label));
    let d = CARD_WIDTH.saturating_sub(prefix_visible);
    if d < 3 {
        3
    } else {
        d
    }
}

/// The prefix of a key/value row: `"{emoji}  {label} "`.
pub open spec fn kv_prefix(emoji: Seq<char>, label: Seq<char>) -> Seq<char> {
    emoji + seq![' ', ' '] + label + seq![' ']
}

pub fn kv_prefix_text(emoji: &str, label: &str) -> (r: String)
    ensures
        r@ == kv_prefix(emoji@, label@),
{
    let mut out: Vec<char> = Vec::new();
    crate::text::push_str(&mut out, emoji);
    out.push(' ');
    out.push(' ');
    crate::text::push_str(&mut out, label);
    out.push(' ');
    proof {
        assert(out@ =~= kv_prefix(emoji@, label@));
    }
    crate::text::string_of(&out)
}

/// Dots that lead from a key/value row's prefix to its value: enough to
/// reach the label width, at least two.
pub fn kv_dots(prefix: &str) -> (r: usize)
    ensures
        r == vstd::math::max(sat_sub(sat_sub(KV_LABEL_WIDTH as int, visible_width(prefix@) as int) as int, 1) as int, 2),
{
    let d = KV_LABEL_WIDTH.saturating_sub(visible_len(prefix)).saturating_sub(1);
    if d < 2 {
        2
    } else {
        d
    }
}

/// The label cell of a table row: `"{emoji}  {label}"`.
pub open spec fn row_label(emoji: Seq<char>, label: Seq<char>) -> Seq<char> {
    emoji + seq![' ', ' '] + label
}

pub fn row_label_text(emoji: &str, label: &str) -> (r: String)
    ensures
        r@ == row_label(emoji@, label@),
{
    let mut out: Vec<char> = Vec::new();
    crate::text::push_str(&mut out, emoji);
    out.push(' ');
    out.push(' ');
    crate::text::push_str(&mut out, label);
    proof {
        assert(out@ =~= row_label(emoji@, label@));
    }
    crate::text::string_of(&out)
}

/// Spaces after a table row's label to fill the label column.
pub fn label_pad(label_text: &str) -> (r: usize)
    ensures
        r == sat_sub(COL_LABEL as int, visible_width(label_text@) as int),
{
    COL_LABEL.saturating_sub(visible_len(label_text))
}

/// `text` centred in `width` characters as `{:^width}` does it: the odd
/// space goes to the right.
pub open spec fn centred(text: Seq<char>, width: nat) -> Seq<char> {
    let pad = sat_sub(width as int, text.len() as int);
    spaces(pad / 2) + text + spaces((pad - pad / 2) as nat)
}

pub fn centre_in(text: &str, width: usize) -> (r: String)
    ensures
        r@ == centred(text@, width as nat),
{
    let cs = crate::text::chars_of(text);
    let pad = width.saturating_sub(cs.len());
    let left = pad / 2;
    let mut out: Vec<char> = Vec::new();
    push_repeat(&mut out, ' ', left);
    crate::text::push_all(&mut out, &cs);
    push_repeat(&mut out, ' ', pad - left);
    proof {
        assert(out@ =~= centred(text@, width as nat));
    }
    crate::text::string_of(&out)
}

/// How a number is shown.
#[derive(Debug, Clone, Copy, PartialEq, Eq, Structural)]
pub enum Tone {
    /// Bold green.
    Good,
    /// Bold red.
    Bad,
    /// Bold yellow.
    Warn,
    /// Bold.
    Strong,
    /// Dimmed.
    Faint,
}

/// An output count against the input count: green when equal, red when
/// short, plain bold when over.
pub fn compare_tone(actual: usize, expected: usize) -> (r: Tone)
    ensures
        r == if actual == expected { Tone::Good } else if actual < expected { Tone::Bad } else { Tone::Strong },
{
    if actual == expected {
        Tone::Good
    } else if actual < expected {
        Tone::Bad
    } else {
        Tone::Strong
    }
}

/// A count that is worth noticing when it is not zero.
pub fn zero_faint_or_warn(n: usize) -> (r: Tone)
    ensures
        r == if n == 0 { Tone::Faint } else { Tone::Warn },
{
    if n == 0 {
        Tone::Faint
    } else {
        Tone::Warn
    }
}

/// A count shown dimmed when zero.
pub fn zero_faint_or_strong(n: u64) -> (r: Tone)
    ensures
        r == if n == 0 { Tone::Faint } else { Tone::Strong },
{
    if n == 0 {
        Tone::Faint
    } else {
        Tone::Strong
    }
}

pub open spec fn noun(n: nat, one: Seq<char>, many: Seq<char>) -> Seq<char> {
    if n == 1 { one } else { many }
}

/// `file` for one, `files` otherwise.
pub fn file_noun(n: usize) -> (r: &'static str)
    ensures
        r@ == noun(n as nat, "file"@, "files"@),
{
    if n == 1 {
        "file"
    } else {
        "files"
    }
}

/// `"{n} file(s){tail}"`.
pub open spec fn counted_files(n: nat, tail: Seq<char>) -> Seq<char> {
    dec(n) + seq![' '] + noun(n, "file"@, "files"@) + tail
}

pub fn counted_files_text(n: usize, tail: &str) -> (r: String)
    ensures
        r@ == counted_files(n as nat, tail@),
{
    let mut out: Vec<char> = Vec::new();
    crate::text::push_dec(&mut out, n as u64);
    out.push(' ');
    crate::text::push_str(&mut out, file_noun(n));
    crate::text::push_str(&mut out, tail);
    proof {
        assert(out@ =~= counted_files(n as nat, tail@));
    }
    crate::text::string_of(&out)
}

/// The title of the summary card.
pub open spec fn summary_title(mark: Seq<char>, duration: Seq<char>, files_per_sec: nat) -> Seq<char> {
    mark + "  Sorted in "@ + duration + "   \u{b7}   "@ + dec(files_per_sec) + " files/s"@
}

pub fn summary_title_text(mark: &str, duration: &str, files_per_sec: u64) -> (r: String)
    ensures
        r@ == summary_title(mark@, duration@, files_per_sec as nat),
{
    let mut out: Vec<char> = Vec::new();
    crate::text::push_str(&mut out, mark);
    crate::text::push_str(&mut out, "  Sorted in ");
    crate::text::push_str(&mut out, duration);
    crate::text::push_str(&mut out, "   \u{b7}   ");
    crate::text::push_dec(&mut out, files_per_sec);
    crate::text::push_str(&mut out, " files/s");
    proof {
        assert(out@ =~= summary_title(mark@, duration@, files_per_sec as nat));
    }
    crate::text::string_of(&out)
}

/// The headline figures of the summary card. A file is in the output
/// unless its copy failed.
pub struct SummaryFigures {
    pub input_total: usize,
    pub output_images: usize,
    pub output_videos: usize,
    pub output_total: usize,
    pub lost_total: usize,
    pub everything_ok: bool,
    /// Files not placed in a date folder: failed copies and unsortable ones.
    pub skipped_total: usize,
}

pub fn summary_figures(
    input_images: usize,
    input_videos: usize,
    copy_failed: usize,
    copy_failed_images: usize,
    copy_failed_videos: usize,
    unsortable_copied: usize,
) -> (r: SummaryFigures)
    requires
        input_images + input_videos <= usize::MAX,
        copy_failed + unsortable_copied <= usize::MAX,
    ensures
        r.input_total == input_images + input_videos,
        r.output_images == sat_sub(input_images as int, copy_failed_images as int),
        r.output_videos == sat_sub(input_videos as int, copy_failed_videos as int),
        r.output_total == r.output_images + r.output_videos,
        r.lost_total == copy_failed,
        r.everything_ok == (copy_failed == 0),
        r.skipped_total == copy_failed + unsortable_copied,
{
    let output_images = input_images.saturating_sub(copy_failed_images);
    let output_videos = input_videos.saturating_sub(copy_failed_videos);
    SummaryFigures {
        input_total: input_images + input_videos,
        output_images,
        output_videos,
        output_total: output_images + output_videos,
        lost_total: copy_failed,
        everything_ok: copy_failed == 0,
        skipped_total: copy_failed + unsortable_copied,
    }
}

/// The red part of the verdict when files were lost.
pub open spec fn lost_line(lost: nat) -> Seq<char> {
    dec(lost) + seq![' '] + noun(lost, "file"@, "files"@) + " LOST \u{2014} see skipped report above"@
}

pub fn lost_text(lost: usize) -> (r: String)
    ensures
        r@ == lost_line(lost as nat),
{
    let mut out: Vec<char> = Vec::new();
    crate::text::push_dec(&mut out, lost as u64);
    out.push(' ');
    crate::text::push_str(&mut out, file_noun(lost));
    crate::text::push_str(&mut out, " LOST \u{2014} see skipped report above");
    proof {
        assert(out@ =~= lost_line(lost as nat));
    }
    crate::text::string_of(&out)
}

/// The sum of the per-source counts.
pub fn sources_total(s: &MetaSnapshot) -> (r: u64)
    requires
        s.exif + s.qt + s.mp4 + s.ffprobe + s.fs <= u64::MAX,
    ensures
        r == s.exif + s.qt + s.mp4 + s.ffprobe + s.fs,
{
    s.exif + s.qt + s.mp4 + s.ffprobe + s.fs
}

/// How many groups the overview lists one by one: all of them up to six,
/// else five and a line for the rest.
pub fn overview_head(n: usize) -> (r: usize)
    ensures
        r == if n > 6 { 5 } else { n },
{
    if n > 6 {
        5
    } else {
        n
    }
}

/// `"{n} {word}"`, with the singular word for one.
pub open spec fn count_part(n: nat, one: Seq<char>, many: Seq<char>) -> Seq<char> {
    dec(n) + seq![' '] + noun(n, one, many)
}

/// What a day of the overview holds: `"3 images, 1 video"`; a kind with no
/// file is left out.
pub open spec fn group_parts(images: nat, videos: nat) -> Seq<char> {
    let i = count_part(images, "image"@, "images"@);
    let v = count_part(videos, "video"@, "videos"@);
    if images > 0 && videos > 0 {
        i + seq![',', ' '] + v
    } else if images > 0 {
        i
    } else if videos > 0 {
        v
    } else {
        Seq::empty()
    }
}

pub fn group_parts_text(images: usize, videos: usize) -> (r: String)
    ensures
        r@ == group_parts(images as nat, videos as nat),
{
    let mut out: Vec<char> = Vec::new();
    if images > 0 {
        crate::text::push_dec(&mut out, images as u64);
        out.push(' ');
        if images == 1 {
            crate::text::push_str(&mut out, "image");
        } else {
            crate::text::push_str(&mut out, "images");
        }
    }
    let ghost after_images = out@;
    if videos > 0 {
        if images > 0 {
            out.push(',');
            out.push(' ');
        }
        crate::text::push_dec(&mut out, videos as u64);
        out.push(' ');
        if videos == 1 {
            crate::text::push_str(&mut out, "video");
        } else {
            crate::text::push_str(&mut out, "videos");
        }
    }
    proof {
        assert(out@ =~= group_parts(images as nat, videos as nat));
    }
    crate::text::string_of(&out)
}

/// How many of `s` are of `kind`.
pub open spec fn skips_of_kind(s: Seq<SkippedFile>, kind: SkipKind) -> nat
    decreases s.len(),
{
    if s.len() == 0 {
        0
    } else {
        skips_of_kind(s.drop_last(), kind) + if s.last().kind == kind { 1nat } else { 0nat }
    }
}

/// How many of `s` are failed copies of media of type `t`.
pub open spec fn failed_of_type(s: Seq<SkippedFile>, t: MediaType) -> nat
    decreases s.len(),
{
    if s.len() == 0 {
        0
    } else {
        failed_of_type(s.drop_last(), t) + if s.last().kind == SkipKind::CopyFailed && s.last().media_type == t {
            1nat
        } else {
            0nat
        }
    }
}

proof fn lemma_skip_counts_le(s: Seq<SkippedFile>)
    ensures
        skips_of_kind(s, SkipKind::Unsortable) <= s.len(),
        skips_of_kind(s, SkipKind::CopyFailed) <= s.len(),
        failed_of_type(s, MediaType::Image) <= s.len(),
        failed_of_type(s, MediaType::Video) <= s.len(),
    decreases s.len(),
{
    if s.len() > 0 {
        lemma_skip_counts_le(s.drop_last());
    }
}

/// The counts of the skipped report and of the summary card.
pub struct SkipCounts {
    pub unsortable: usize,
    pub copy_failed: usize,
    pub copy_failed_images: usize,
    pub copy_failed_videos: usize,
}

pub fn skip_counts(skipped: &Vec<SkippedFile>) -> (r: SkipCounts)
    ensures
        r.unsortable == skips_of_kind(skipped@, SkipKind::Unsortable),
        r.copy_failed == skips_of_kind(skipped@, SkipKind::CopyFailed),
        r.copy_failed_images == failed_of_type(skipped@, MediaType::Image),
        r.copy_failed_videos == failed_of_type(skipped@, MediaType::Video),
{
    let mut r = SkipCounts { unsortable: 0, copy_failed: 0, copy_failed_images: 0, copy_failed_videos: 0 };
    let mut i: usize = 0;
    while i < skipped.len()
        invariant
            i <= skipped@.len(),
            r.unsortable == skips_of_kind(skipped@.take(i as int), SkipKind::Unsortable),
            r.copy_failed == skips_of_kind(skipped@.take(i as int), SkipKind::CopyFailed),
            r.copy_failed_images == failed_of_type(skipped@.take(i as int), MediaType::Image),
            r.copy_failed_videos == failed_of_type(skipped@.take(i as int), MediaType::Video),
        decreases skipped@.len() - i,
    {
        let e = &skipped[i];
        proof {
            let t = skipped@.take(i + 1);
            assert(t.drop_last() =~= skipped@.take(i as int));
            lemma_skip_counts_le(skipped@.take(i as int));
        }
        match e.kind {
            SkipKind::Unsortable => {
                r.unsortable = r.unsortable + 1;
            },
            SkipKind::CopyFailed => {
                r.copy_failed = r.copy_failed + 1;
                match e.media_type {
                    MediaType::Image => r.copy_failed_images = r.copy_failed_images + 1,
                    MediaType::Video => r.copy_failed_videos = r.copy_failed_videos + 1,
                }
            },
        }
        i = i + 1;
    }
    proof {
        assert(skipped@.take(skipped@.len() as int) =~= skipped@);
    }
    r
}

/// How many skipped files the report does not list one by one.
pub fn unlisted_count(n: usize) -> (r: usize)
    ensures
        r == sat_sub(n as int, MAX_PRINTED as int),
{
    n.saturating_sub(MAX_PRINTED)
}

/// The dates of the first and last day, where there is a day.
pub fn oldest_to_newest(groups: &Vec<DateGroup>) -> (r: Option<(LocalDateTime, LocalDateTime)>)
    ensures
        r == if groups@.len() == 0 {
            None
        } else {
            Some((groups@[0].date, groups@.last().date))
        },
{
    if groups.len() == 0 {
        return None;
    }
    let first = groups[0].date;
    let last = groups[groups.len() - 1].date;
    Some((first, last))
}

/// Whether some file needs `ffprobe` for its date.
pub fn needs_ffprobe(files: &Vec<MediaFile>) -> (r: bool)
    ensures
        r == exists|i: int| 0 <= i < files@.len() && ffprobe_exts().contains(#[trigger] files@[i].extension@),
{
    let mut i: usize = 0;
    while i < files.len()
        invariant
            i <= files@.len(),
            forall|k: int| 0 <= k < i ==> !ffprobe_exts().contains(#[trigger] files@[k].extension@),
        decreases files@.len() - i,
    {
        if crate::extensions::uses_ffprobe(files[i].extension.as_str()) {
            return true;
        }
        i = i + 1;
    }
    false
}

} // verus!
