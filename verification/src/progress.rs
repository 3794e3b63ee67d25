//! What the progress display computes: display options, glyph choice, the
//! per-source tally of the metadata phase, durations, short counts and
//! shortened paths.

use vstd::prelude::*;
use crate::types::DateSource;
use crate::copier::CopyEvent;
use crate::text::dec;
use crate::paths::components;

verus! {

/// Display options.
#[derive(Debug, Clone, Copy)]
pub struct UiOptions {
    /// One line per phase in place of live bars.
    pub quiet: bool,
}

impl UiOptions {
    /// Live bars for an attended terminal, one line per phase otherwise.
    pub fn from_attended(attended: bool) -> (r: UiOptions)
        ensures
            r.quiet == !attended,
    {
        UiOptions { quiet: !attended }
    }
}

/// Chooses between emoji and plain ASCII markers.
#[derive(Debug, Clone, Copy)]
pub struct Glyphs {
    no_emoji: bool,
}

impl Glyphs {
    pub closed spec fn ascii_only(&self) -> bool {
        self.no_emoji
    }

    /// Glyphs that use ASCII markers exactly when `no_emoji` is set.
    pub fn with_no_emoji(no_emoji: bool) -> (r: Glyphs)
        ensures
            r.ascii_only() == no_emoji,
    {
        Glyphs { no_emoji }
    }

    pub fn pick(&self, emoji: &'static str, ascii: &'static str) -> (r: &'static str)
        ensures
            r@ == if self.ascii_only() { ascii@ } else { emoji@ },
    {
        if self.no_emoji {
            ascii
        } else {
            emoji
        }
    }
}

/// How many dates came from each kind of source.
#[derive(Debug, Clone, Copy)]
pub struct MetaSnapshot {
    pub exif: u64,
    pub qt: u64,
    pub mp4: u64,
    pub ffprobe: u64,
    pub fs: u64,
}

impl Default for MetaSnapshot {
    fn default() -> (r: MetaSnapshot)
        ensures
            r.exif == 0 && r.qt == 0 && r.mp4 == 0 && r.ffprobe == 0 && r.fs == 0,
    {
        MetaSnapshot { exif: 0, qt: 0, mp4: 0, ffprobe: 0, fs: 0 }
    }
}

/// `x + 1` modulo 2^64.
pub open spec fn bump(x: u64) -> u64 {
    if x == u64::MAX { 0 } else { (x + 1) as u64 }
}

/// The tally after one more date from `source`.
pub open spec fn record_effect(s: MetaSnapshot, source: DateSource) -> MetaSnapshot {
    MetaSnapshot {
        exif: if source == DateSource::Exif { bump(s.exif) } else { s.exif },
        qt: if source == DateSource::QuickTime { bump(s.qt) } else { s.qt },
        mp4: if source == DateSource::Mp4Box { bump(s.mp4) } else { s.mp4 },
        ffprobe: if source == DateSource::Ffprobe { bump(s.ffprobe) } else { s.ffprobe },
        fs: if source == DateSource::FileBirthtime || source == DateSource::FileMtime { bump(s.fs) } else { s.fs },
    }
}

/// The tally after recording `sources` in order, starting from `s`.
pub open spec fn recorded(s: MetaSnapshot, sources: Seq<DateSource>) -> MetaSnapshot
    decreases sources.len(),
{
    if sources.len() == 0 {
        s
    } else {
        record_effect(recorded(s, sources.drop_last()), sources.last())
    }
}

/// How many of `sources` are `target`.
pub open spec fn count_source(sources: Seq<DateSource>, target: DateSource) -> nat
    decreases sources.len(),
{
    if sources.len() == 0 {
        0
    } else {
        count_source(sources.drop_last(), target) + if sources.last() == target { 1nat } else { 0nat }
    }
}

pub open spec fn empty_snapshot() -> MetaSnapshot {
    MetaSnapshot { exif: 0, qt: 0, mp4: 0, ffprobe: 0, fs: 0 }
}

/// The number of `sources` that are a filesystem time.
pub open spec fn count_fs(sources: Seq<DateSource>) -> nat {
    count_source(sources, DateSource::FileBirthtime) + count_source(sources, DateSource::FileMtime)
}

/// The five counts together.
pub open spec fn count_all(sources: Seq<DateSource>) -> nat {
    count_source(sources, DateSource::Exif) + count_source(sources, DateSource::QuickTime) + count_source(
        sources,
        DateSource::Mp4Box,
    ) + count_source(sources, DateSource::Ffprobe) + count_fs(sources)
}

proof fn lemma_count_all(sources: Seq<DateSource>)
    ensures
        count_all(sources) == sources.len(),
    decreases sources.len(),
{
    if sources.len() > 0 {
        lemma_count_all(sources.drop_last());
    }
}

/// Recording the dates of a run of files, one by one from an empty tally,
/// counts each kind of source; both filesystem times count as `fs`, and
/// the five counts add up to the number of files.
pub proof fn tally_counts_each_source(sources: Seq<DateSource>)
    requires
        sources.len() < 0x1_0000_0000_0000_0000,
    ensures
        recorded(empty_snapshot(), sources).exif == count_source(sources, DateSource::Exif),
        recorded(empty_snapshot(), sources).qt == count_source(sources, DateSource::QuickTime),
        recorded(empty_snapshot(), sources).mp4 == count_source(sources, DateSource::Mp4Box),
        recorded(empty_snapshot(), sources).ffprobe == count_source(sources, DateSource::Ffprobe),
        recorded(empty_snapshot(), sources).fs == count_fs(sources),
        count_all(sources) == sources.len(),
    decreases sources.len(),
{
    lemma_count_all(sources);
    if sources.len() > 0 {
        let init = sources.drop_last();
        tally_counts_each_source(init);
        lemma_count_all(init);
        let prev = recorded(empty_snapshot(), init);
        let d = sources.last();
        assert(recorded(empty_snapshot(), sources) == record_effect(prev, d));
        assert(prev.exif < 0xffff_ffff_ffff_ffff && prev.qt < 0xffff_ffff_ffff_ffff && prev.mp4 < 0xffff_ffff_ffff_ffff
            && prev.ffprobe < 0xffff_ffff_ffff_ffff && prev.fs < 0xffff_ffff_ffff_ffff);
    }
}

impl MetaSnapshot {
    /// Counts one date from `source`; both filesystem times count as `fs`.
    /// Counters wrap at 2^64.
    pub fn record(&mut self, source: DateSource)
        ensures
            *final(self) == record_effect(*old(self), source),
            final(self).exif == if source == DateSource::Exif { bump(old(self).exif) } else { old(self).exif },
            final(self).qt == if source == DateSource::QuickTime { bump(old(self).qt) } else { old(self).qt },
            final(self).mp4 == if source == DateSource::Mp4Box { bump(old(self).mp4) } else { old(self).mp4 },
            final(self).ffprobe == if source == DateSource::Ffprobe { bump(old(self).ffprobe) } else { old(self).ffprobe },
            final(self).fs == if source == DateSource::FileBirthtime || source == DateSource::FileMtime {
                bump(old(self).fs)
            } else {
                old(self).fs
            },
    {
        match source {
            DateSource::Exif => self.exif = self.exif.wrapping_add(1),
            DateSource::QuickTime => self.qt = self.qt.wrapping_add(1),
            DateSource::Mp4Box => self.mp4 = self.mp4.wrapping_add(1),
            DateSource::Ffprobe => self.ffprobe = self.ffprobe.wrapping_add(1),
            DateSource::FileBirthtime | DateSource::FileMtime => self.fs = self.fs.wrapping_add(1),
        }
    }
}

/// What the copy display counts: bytes handled, files copied, and files
/// left in place as duplicates.
#[derive(Debug, Clone, Copy)]
pub struct CopyCounts {
    pub bytes_done: u64,
    pub copied: u64,
    pub deduped: u64,
}

impl CopyCounts {
    pub fn new() -> (r: CopyCounts)
        ensures
            r.bytes_done == 0 && r.copied == 0 && r.deduped == 0,
    {
        CopyCounts { bytes_done: 0, copied: 0, deduped: 0 }
    }

    /// Counts one handled file: its bytes, and one copy or one duplicate.
    /// Counters wrap at 2^64.
    pub fn record(&mut self, e: &CopyEvent<'_>)
        ensures
            final(self).bytes_done == (old(self).bytes_done + e.bytes) % 0x1_0000_0000_0000_0000,
            final(self).copied == if e.deduped { old(self).copied } else { bump(old(self).copied) },
            final(self).deduped == if e.deduped { bump(old(self).deduped) } else { old(self).deduped },
    {
        self.bytes_done = self.bytes_done.wrapping_add(e.bytes);
        if e.deduped {
            self.deduped = self.deduped.wrapping_add(1);
        } else {
            self.copied = self.copied.wrapping_add(1);
        }
    }
}

/// `t` whole `unit`s are nearest to `x`: at most half a unit away, so at
/// an exact half either neighbour.
pub open spec fn nearest_units(t: nat, x: nat, unit: nat) -> bool {
    &&& 2 * t * unit <= 2 * x + unit
    &&& 2 * x <= 2 * t * unit + unit
}

/// A number of tenths `t` written with one decimal: `12.3`.
pub open spec fn tenths_text(t: nat) -> Seq<char> {
    dec(t / 10) + seq!['.'] + dec(t % 10)
}

/// A duration of `secs` seconds and `nanos` nanoseconds as text: under a
/// minute as seconds with one decimal (`4.2s`, the nearest tenth; at an
/// exact half either neighbour, as binary floating point would round it),
/// under an hour as `3m 7s`, else as `1h 3m 7s`.
pub open spec fn is_dur_text(secs: nat, nanos: nat, r: Seq<char>) -> bool {
    if secs < 60 {
        exists|t: nat| nearest_units(t, secs * 1_000_000_000 + nanos, 100_000_000) && r == tenths_text(t) + seq!['s']
    } else if secs / 60 < 60 {
        r == dec(secs / 60) + seq!['m', ' '] + dec(secs % 60) + seq!['s']
    } else {
        r == dec(secs / 3600) + seq!['h', ' '] + dec((secs / 60) % 60) + seq!['m', ' '] + dec(secs % 60) + seq!['s']
    }
}

fn push_tenths(out: &mut Vec<char>, t: u64)
    ensures
        final(out)@ == old(out)@ + tenths_text(t as nat),
{
    crate::text::push_dec(out, t / 10);
    out.push('.');
    crate::text::push_dec(out, t % 10);
    proof {
        assert(final(out)@ =~= old(out)@ + tenths_text(t as nat));
    }
}

/// Renders the duration of `secs` seconds and `nanos` nanoseconds.
pub fn format_dur(secs: u64, nanos: u32) -> (r: String)
    requires
        nanos < 1_000_000_000,
    ensures
        is_dur_text(secs as nat, nanos as nat, r@),
{
    let mut v: Vec<char> = Vec::new();
    if secs < 60 {
        let total: u64 = secs * 1_000_000_000 + nanos as u64;
        let t = (total + 50_000_000) / 100_000_000;
        push_tenths(&mut v, t);
        v.push('s');
        proof {
            assert(nearest_units(t as nat, total as nat, 100_000_000)) by (nonlinear_arith)
                requires t == (total + 50_000_000) / 100_000_000;
            assert(v@ =~= tenths_text(t as nat) + seq!['s']);
        }
    } else {
        let m = secs / 60;
        let s = secs % 60;
        if m < 60 {
            crate::text::push_dec(&mut v, m);
            v.push('m');
            v.push(' ');
            crate::text::push_dec(&mut v, s);
            v.push('s');
            proof {
                assert(v@ =~= dec(m as nat) + seq!['m', ' '] + dec(s as nat) + seq!['s']);
            }
        } else {
            let h = m / 60;
            let mm = m % 60;
            crate::text::push_dec(&mut v, h);
            v.push('h');
            v.push(' ');
            crate::text::push_dec(&mut v, mm);
            v.push('m');
            v.push(' ');
            crate::text::push_dec(&mut v, s);
            v.push('s');
            proof {
                assert(h == secs / 3600) by (nonlinear_arith)
                    requires m == secs / 60, h == m / 60;
                assert(v@ =~= dec(h as nat) + seq!['h', ' '] + dec(mm as nat) + seq!['m', ' '] + dec(s as nat) + seq![
                    's',
                ]);
            }
        }
        proof {
            assert(is_dur_text(secs as nat, nanos as nat, v@));
        }
    }
    crate::text::string_of(&v)
}

/// A count written short: as is below a thousand, else in thousands (`k`)
/// or millions (`M`) with one decimal, the nearest tenth (at an exact half
/// either neighbour, as binary floating point would round it).
pub open spec fn is_count_text(n: nat, r: Seq<char>) -> bool {
    if n < 1000 {
        r == dec(n)
    } else if n < 1_000_000 {
        exists|t: nat| nearest_units(t, n, 100) && r == tenths_text(t) + seq!['k']
    } else {
        exists|t: nat| nearest_units(t, n, 100_000) && r == tenths_text(t) + seq!['M']
    }
}

pub fn human_count(n: u64) -> (r: String)
    ensures
        is_count_text(n as nat, r@),
{
    let mut v: Vec<char> = Vec::new();
    if n < 1000 {
        crate::text::push_dec(&mut v, n);
        proof {
            assert(v@ =~= dec(n as nat));
        }
    } else if n < 1_000_000 {
        let t = (n + 50) / 100;
        push_tenths(&mut v, t);
        v.push('k');
        proof {
            assert(nearest_units(t as nat, n as nat, 100)) by (nonlinear_arith)
                requires t == (n + 50) / 100;
            assert(v@ =~= tenths_text(t as nat) + seq!['k']);
        }
    } else {
        let t: u64 = n / 100_000 + if n % 100_000 >= 50_000 { 1u64 } else { 0u64 };
        push_tenths(&mut v, t);
        v.push('M');
        proof {
            assert(nearest_units(t as nat, n as nat, 100_000)) by (nonlinear_arith)
                requires t == n / 100_000 + if n % 100_000 >= 50_000 { 1int } else { 0int };
            assert(v@ =~= tenths_text(t as nat) + seq!['M']);
        }
    }
    crate::text::string_of(&v)
}

/// `s` kept whole when at most `max` characters long, else its first
/// `max / 2 - 2` characters, `...` and its last `max - (max / 2 - 2) - 3`.
pub open spec fn truncated_middle(s: Seq<char>, max: nat) -> Seq<char> {
    if s.len() <= max {
        s
    } else {
        let head = max / 2 - 2;
        let tail = max - head - 3;
        s.take(head) + seq!['.', '.', '.'] + s.skip(s.len() - tail)
    }
}

pub fn truncate_middle(s: &str, max: usize) -> (r: String)
    requires
        s@.len() <= max || max >= 4,
    ensures
        r@ == truncated_middle(s@, max as nat),
{
    let chars = crate::text::chars_of(s);
    let n = chars.len();
    if n <= max {
        return crate::text::string_of(&chars);
    }
    let head = max / 2 - 2;
    let tail = max - head - 3;
    let mut out: Vec<char> = Vec::new();
    let mut i: usize = 0;
    while i < head
        invariant
            i <= head < n,
            n == chars@.len(),
            out@ == chars@.take(i as int),
        decreases head - i,
    {
        out.push(chars[i]);
        i = i + 1;
        proof {
            assert(out@ =~= chars@.take(i as int));
        }
    }
    out.push('.');
    out.push('.');
    out.push('.');
    let ghost mid = out@;
    let mut j: usize = n - tail;
    while j < n
        invariant
            tail <= n,
            n - tail <= j <= n,
            n == chars@.len(),
            out@ == mid + chars@.subrange(n - tail, j as int),
        decreases n - j,
    {
        out.push(chars[j]);
        j = j + 1;
        proof {
            assert(out@ =~= mid + chars@.subrange(n - tail, j as int));
        }
    }
    proof {
        assert(chars@.subrange(n - tail, n as int) =~= chars@.skip(n - tail));
        assert(out@ =~= truncated_middle(s@, max as nat));
    }
    crate::text::string_of(&out)
}

/// Components joined with `/`.
pub open spec fn join_slash(cs: Seq<Seq<char>>) -> Seq<char>
    decreases cs.len(),
{
    if cs.len() == 0 {
        Seq::empty()
    } else if cs.len() == 1 {
        cs[0]
    } else {
        join_slash(cs.drop_last()) + seq!['/'] + cs.last()
    }
}

/// The last three components of the destination directory, then the file
/// name: `2025/1. Jan/15th/IMG_1.jpg`.
pub open spec fn copy_label(dest_dir: Seq<char>, final_name: Seq<char>) -> Seq<char> {
    let cs = components(dest_dir);
    let tail = if cs.len() > 3 { cs.skip(cs.len() - 3) } else { cs };
    join_slash(tail) + seq!['/'] + final_name
}

pub fn copy_display_path(dest_dir: &str, final_name: &str) -> (r: String)
    ensures
        r@ == copy_label(dest_dir@, final_name@),
{
    let p = crate::text::chars_of(dest_dir);
    let cs = crate::paths::components_exec(&p);
    let ghost cv = cs@.map_values(|v: Vec<char>| v@);
    let n = cs.len();
    let start: usize = if n > 3 { n - 3 } else { 0 };
    let ghost tail = if cv.len() > 3 { cv.skip(cv.len() - 3) } else { cv };
    let mut out: Vec<char> = Vec::new();
    let mut i: usize = start;
    while i < n
        invariant
            start <= i <= n,
            n == cv.len(),
            cv == cs@.map_values(|v: Vec<char>| v@),
            start == if n > 3 { n - 3 } else { 0 },
            tail == cv.subrange(start as int, n as int),
            out@ == join_slash(tail.take(i - start)),
        decreases n - i,
    {
        if i > start {
            out.push('/');
        }
        crate::text::push_all(&mut out, cs[i].as_slice());
        proof {
            let t = tail.take(i + 1 - start);
            assert(t.drop_last() =~= tail.take(i - start));
            assert(t.last() == cv[i as int]);
            if i == start {
                assert(tail.take(0) =~= Seq::<Seq<char>>::empty());
            }
        }
        i = i + 1;
    }
    proof {
        assert(tail.take(n - start) =~= tail);
    }
    out.push('/');
    crate::text::push_str(&mut out, final_name);
    crate::text::string_of(&out)
}

} // verus!
