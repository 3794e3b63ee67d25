//! Minimal ISO-BMFF (`mp4`/`mov`/`m4v`/`3gp`) reading: the `mvhd` creation
//! time and the QuickTime `com.apple.quicktime.creationdate` user-data key.
//!
//! The top-level walk is a sequence of steps (`toplevel_first`,
//! `toplevel_next`): the caller reads the box header each step asks for and
//! hands it back, until the `moov` box is found; its payload is then parsed
//! in memory by `parse_moov`. Reads past the bytes handed in find the end of
//! input, as reads past the end of a file do.

use vstd::prelude::*;
use crate::types::{DateSource, LocalDateTime};
use crate::text::{trimmed, lossy_text, utf8_lossy};
use crate::clock::{rfc3339_instant, offset_datetime_instant, placeable_instant};

verus! {

/// Seconds between `1904-01-01T00:00:00Z` (ISO-BMFF epoch) and the Unix epoch.
pub const EPOCH_OFFSET_SECS: i64 = 2_082_844_800;

/// Top-level scan budget: boxes starting at or beyond this offset are not
/// examined.
pub const MAX_TOPLEVEL_WALK: u64 = 268_435_456;

pub const FOURCC_MOOV: u32 = 0x6d6f_6f76;
pub const FOURCC_MVHD: u32 = 0x6d76_6864;
pub const FOURCC_UDTA: u32 = 0x7564_7461;
pub const FOURCC_META: u32 = 0x6d65_7461;
pub const FOURCC_KEYS: u32 = 0x6b65_7973;
pub const FOURCC_ILST: u32 = 0x696c_7374;
pub const FOURCC_DATA: u32 = 0x6461_7461;

/// A box header: total size including the header (0 when the box runs to
/// the end of the file), type, and header length.
#[derive(Debug, Clone, Copy, PartialEq, Eq, Structural)]
pub struct BoxHeader {
    pub size: u64,
    pub kind: u32,
    pub header_len: u64,
}

/// Big-endian 32-bit value at `p`.
pub open spec fn be32(d: Seq<u8>, p: int) -> int {
    d[p] as int * 16777216 + d[p + 1] as int * 65536 + d[p + 2] as int * 256 + d[p + 3] as int
}

/// Big-endian 64-bit value at `p`.
pub open spec fn be64(d: Seq<u8>, p: int) -> int {
    be32(d, p) * 4294967296 + be32(d, p + 4)
}

/// Reading a box header at `p`: `Ok(None)` when fewer than 8 bytes remain,
/// `Err` when a 64-bit size is announced but cut short.
pub open spec fn box_header_at(d: Seq<u8>, p: int) -> Result<Option<BoxHeader>, ()> {
    if p < 0 || p + 8 > d.len() {
        Ok(None)
    } else {
        let size32 = be32(d, p);
        let kind = be32(d, p + 4) as u32;
        if size32 == 1 {
            if p + 16 > d.len() {
                Err(())
            } else {
                Ok(Some(BoxHeader { size: be64(d, p + 8) as u64, kind, header_len: 16 }))
            }
        } else if size32 == 0 {
            Ok(Some(BoxHeader { size: 0, kind, header_len: 8 }))
        } else {
            Ok(Some(BoxHeader { size: size32 as u64, kind, header_len: 8 }))
        }
    }
}

pub proof fn lemma_be32_bound(d: Seq<u8>, p: int)
    requires
        0 <= p,
        p + 4 <= d.len(),
    ensures
        0 <= be32(d, p) <= 0xffff_ffff,
{
}

pub proof fn lemma_be64_bound(d: Seq<u8>, p: int)
    requires
        0 <= p,
        p + 8 <= d.len(),
    ensures
        0 <= be64(d, p) <= 0xffff_ffff_ffff_ffff,
{
    lemma_be32_bound(d, p);
    lemma_be32_bound(d, p + 4);
    assert(be32(d, p) * 4294967296 <= 0xffff_ffff * 4294967296) by (nonlinear_arith)
        requires
            0 <= be32(d, p) <= 0xffff_ffff,
    ;
}

/// Whether `n` bytes are available at `p`.
pub open spec fn available(d: Seq<u8>, p: int, n: int) -> bool {
    0 <= p && p + n <= d.len()
}

fn has_bytes(d: &[u8], p: u64, n: u64) -> (r: bool)
    ensures
        r == available(d@, p as int, n as int),
{
    let len = d.len() as u64;
    p <= len && len - p >= n
}

fn read_be32(d: &[u8], p: u64) -> (r: u32)
    requires
        available(d@, p as int, 4),
    ensures
        r as int == be32(d@, p as int),
{
    let i = p as usize;
    (d[i] as u32) * 16777216 + (d[i + 1] as u32) * 65536 + (d[i + 2] as u32) * 256 + (d[i + 3] as u32)
}

fn read_be64(d: &[u8], p: u64) -> (r: u64)
    requires
        available(d@, p as int, 8),
    ensures
        r as int == be64(d@, p as int),
{
    let n = d.len();
    assert(p + 8 <= n);
    let hi = read_be32(d, p) as u64;
    let lo = read_be32(d, p + 4) as u64;
    proof {
        lemma_be64_bound(d@, p as int);
    }
    hi * 4294967296 + lo
}

/// Reads the box header at `pos` of `d`.
pub fn read_box_header(d: &[u8], pos: u64) -> (r: Result<Option<BoxHeader>, ()>)
    ensures
        r == box_header_at(d@, pos as int),
{
    if !has_bytes(d, pos, 8) {
        return Ok(None);
    }
    let n = d.len();
    assert(pos + 8 <= n);
    let size32 = read_be32(d, pos);
    let kind = read_be32(d, pos + 4);
    if size32 == 1 {
        if !has_bytes(d, pos, 16) {
            Err(())
        } else {
            let size = read_be64(d, pos + 8);
            Ok(Some(BoxHeader { size, kind, header_len: 16 }))
        }
    } else if size32 == 0 {
        Ok(Some(BoxHeader { size: 0, kind, header_len: 8 }))
    } else {
        Ok(Some(BoxHeader { size: size32 as u64, kind, header_len: 8 }))
    }
}

/// The `mvhd` creation time read just after its header at `q`: version 1
/// stores 64 bits, others 32 bits, after the version byte and three flag
/// bytes.
pub open spec fn mvhd_creation_at(d: Seq<u8>, q: int) -> Result<u64, ()> {
    if !available(d, q, 4) {
        Err(())
    } else if d[q] == 1 {
        if !available(d, q + 4, 8) {
            Err(())
        } else {
            Ok(be64(d, q + 4) as u64)
        }
    } else if !available(d, q + 4, 4) {
        Err(())
    } else {
        Ok(be32(d, q + 4) as u64)
    }
}

/// Reads the `mvhd` creation time (seconds since 1904) starting at `q`.
pub fn read_mvhd_creation(d: &[u8], q: u64) -> (r: Result<u64, ()>)
    ensures
        r == mvhd_creation_at(d@, q as int),
{
    if !has_bytes(d, q, 4) {
        return Err(());
    }
    let n = d.len();
    assert(q + 4 <= n);
    let version = d[q as usize];
    if version == 1 {
        if !has_bytes(d, q + 4, 8) {
            Err(())
        } else {
            Ok(read_be64(d, q + 4))
        }
    } else if !has_bytes(d, q + 4, 4) {
        Err(())
    } else {
        Ok(read_be32(d, q + 4) as u64)
    }
}

/// Whether `n` bytes are available at `base + off`.
fn avail_at(d: &[u8], base: u64, off: u64, n: u64) -> (r: bool)
    ensures
        r == available(d@, base as int + off as int, n as int),
{
    let len = d.len() as u64;
    base <= len && off <= len - base && n <= len - base - off
}

/// The bytes `d[from..from + n]`, which must be available.
fn copy_bytes(d: &[u8], from: u64, n: u64) -> (r: Vec<u8>)
    requires
        available(d@, from as int, n as int),
    ensures
        r@ == d@.subrange(from as int, from + n),
{
    let mut out: Vec<u8> = Vec::new();
    let mut k: u64 = 0;
    let dl = d.len(); // a slice length is a usize, so it fits in 64 bits
    while k < n
        invariant
            k <= n,
            dl == d@.len(),
            available(d@, from as int, n as int),
            out@ == d@.subrange(from as int, from + k),
        decreases n - k,
    {
        out.push(d[(from + k) as usize]);
        k = k + 1;
        proof {
            assert(out@ =~= d@.subrange(from as int, from + k));
        }
    }
    out
}

/// Within one `ilst` item, the first `data` child: `Some` when the item
/// decides the answer (its `data` box is read, or too short to hold a
/// value, or cut off), `None` when the walk moves on to the next item.
pub open spec fn ilst_item_scan(d: Seq<u8>, start: int, inner_len: int, ipos: int) -> Option<
    Result<Option<Seq<char>>, ()>,
>
    decreases inner_len - ipos,
{
    if ipos + 8 > inner_len || !available(d, start + ipos, 8) {
        None
    } else {
        let csize = be32(d, start + ipos);
        let ckind = be32(d, start + ipos + 4);
        if csize < 8 || ipos + csize > inner_len {
            None
        } else if ckind == FOURCC_DATA as int {
            if csize < 16 {
                Some(Ok(None))
            } else if !available(d, start + ipos + 8, 8) || !available(d, start + ipos + 16, csize - 16) {
                Some(Err(()))
            } else {
                Some(Ok(Some(lossy_text(d.subrange(start + ipos + 16, start + ipos + csize)))))
            }
        } else {
            ilst_item_scan(d, start, inner_len, ipos + csize)
        }
    }
}

/// The `ilst` walk at `off` (`len` bytes) for the item whose key index is
/// `target`: the text of its `data` box.
pub open spec fn ilst_scan(d: Seq<u8>, off: int, len: int, target: int, pos: int) -> Result<
    Option<Seq<char>>,
    (),
>
    decreases len - pos,
{
    if pos + 8 > len || !available(d, off + pos, 8) {
        Ok(None)
    } else {
        let item_size = be32(d, off + pos);
        let item_index = be32(d, off + pos + 4);
        if item_size < 8 || pos + item_size > len {
            Ok(None)
        } else if item_index == target {
            match ilst_item_scan(d, off + pos + 8, item_size - 8, 0) {
                Some(x) => x,
                None => ilst_scan(d, off, len, target, pos + item_size),
            }
        } else {
            ilst_scan(d, off, len, target, pos + item_size)
        }
    }
}

/// The text view of a found value.
pub open spec fn text_result(r: Result<Option<String>, ()>) -> Result<Option<Seq<char>>, ()> {
    match r {
        Ok(Some(t)) => Ok(Some(t@)),
        Ok(None) => Ok(None),
        Err(e) => Err(e),
    }
}

fn scan_ilst_item(d: &[u8], start: u64, inner_len: u64) -> (r: Option<Result<Option<String>, ()>>)
    requires
        start as int <= d@.len(),
    ensures
        match r {
            None => ilst_item_scan(d@, start as int, inner_len as int, 0) is None,
            Some(x) => ilst_item_scan(d@, start as int, inner_len as int, 0) == Some(text_result(x)),
        },
{
    let mut ipos: u64 = 0;
    let dl = d.len(); // a slice length is a usize, so it fits in 64 bits
    assert(d@.len() <= u64::MAX);
    while ipos <= inner_len && inner_len - ipos >= 8
        invariant
            d@.len() <= u64::MAX,
            start as int <= d@.len(),
            ilst_item_scan(d@, start as int, inner_len as int, ipos as int) == ilst_item_scan(
                d@,
                start as int,
                inner_len as int,
                0,
            ),
        decreases inner_len - ipos,
    {
        if !avail_at(d, start, ipos, 8) {
            return None;
        }
        let at = start + ipos;
        let csize = read_be32(d, at) as u64;
        let ckind = read_be32(d, at + 4);
        if csize < 8 || csize > inner_len - ipos {
            return None;
        }
        if ckind == FOURCC_DATA {
            if csize < 16 {
                return Some(Ok(None));
            }
            if !avail_at(d, at, 8, 8) || !avail_at(d, at, 16, csize - 16) {
                return Some(Err(()));
            }
            let payload = copy_bytes(d, at + 16, csize - 16);
            assert(payload@ =~= d@.subrange(at + 16, at + csize));
            return Some(Ok(Some(utf8_lossy(&payload))));
        }
        ipos = ipos + csize;
    }
    None
}

/// Reads the text of the `data` box of the `ilst` item with key index
/// `target` from the `ilst` payload at `off` (`len` bytes).
pub fn parse_ilst_string(d: &[u8], off: u64, len: u64, target: u32) -> (r: Result<Option<String>, ()>)
    requires
        off as int <= d@.len(),
    ensures
        text_result(r) == ilst_scan(d@, off as int, len as int, target as int, 0),
{
    let mut pos: u64 = 0;
    let dl = d.len(); // a slice length is a usize, so it fits in 64 bits
    assert(d@.len() <= u64::MAX);
    while pos <= len && len - pos >= 8
        invariant
            d@.len() <= u64::MAX,
            off as int <= d@.len(),
            ilst_scan(d@, off as int, len as int, target as int, pos as int) == ilst_scan(
                d@,
                off as int,
                len as int,
                target as int,
                0,
            ),
        decreases len - pos,
    {
        if !avail_at(d, off, pos, 8) {
            return Ok(None);
        }
        let at = off + pos;
        let item_size = read_be32(d, at) as u64;
        let item_index = read_be32(d, at + 4);
        if item_size < 8 || item_size > len - pos {
            return Ok(None);
        }
        if item_index == target {
            match scan_ilst_item(d, at + 8, item_size - 8) {
                Some(x) => {
                    return x;
                },
                None => {},
            }
        }
        pos = pos + item_size;
    }
    Ok(None)
}

/// The key names listed in a `keys` box payload at `off` (`len` bytes):
/// version and flags, an entry count, then (size, namespace, name) entries.
pub open spec fn key_names_at(d: Seq<u8>, off: int, len: int) -> Result<Seq<Seq<char>>, ()> {
    if !available(d, off, 8) {
        Ok(Seq::empty())
    } else {
        keys_loop(d, off, len, be32(d, off + 4), 0, 8, Seq::empty())
    }
}

pub open spec fn keys_loop(
    d: Seq<u8>,
    off: int,
    len: int,
    count: int,
    i: int,
    consumed: int,
    acc: Seq<Seq<char>>,
) -> Result<Seq<Seq<char>>, ()>
    decreases count - i,
{
    if i >= count || consumed + 8 > len {
        Ok(acc)
    } else if !available(d, off + consumed, 8) {
        Err(())
    } else {
        let size = be32(d, off + consumed);
        if size < 8 || consumed + size > len {
            Ok(acc)
        } else if !available(d, off + consumed + 8, size - 8) {
            Err(())
        } else {
            keys_loop(
                d,
                off,
                len,
                count,
                i + 1,
                consumed + size,
                acc.push(lossy_text(d.subrange(off + consumed + 8, off + consumed + size))),
            )
        }
    }
}

/// The text views of a list of strings.
pub open spec fn texts(v: Seq<String>) -> Seq<Seq<char>> {
    v.map_values(|s: String| s@)
}

/// Reads the key names of a `keys` box payload at `off` (`len` bytes).
pub fn parse_keys(d: &[u8], off: u64, len: u64) -> (r: Result<Vec<String>, ()>)
    requires
        off as int <= d@.len(),
    ensures
        match r {
            Ok(v) => key_names_at(d@, off as int, len as int) == Ok::<Seq<Seq<char>>, ()>(texts(v@))
                && v@.len() <= u32::MAX,
            Err(()) => key_names_at(d@, off as int, len as int) == Err::<Seq<Seq<char>>, ()>(()),
        },
{
    let dl = d.len(); // a slice length is a usize, so it fits in 64 bits
    assert(d@.len() <= u64::MAX);
    let mut out: Vec<String> = Vec::new();
    if !avail_at(d, off, 0, 8) {
        assert(texts(out@) =~= Seq::<Seq<char>>::empty());
        return Ok(out);
    }
    let count = read_be32(d, off + 4);
    let mut i: u32 = 0;
    let mut consumed: u64 = 8;
    assert(texts(out@) =~= Seq::<Seq<char>>::empty());
    while i < count
        invariant
            d@.len() <= u64::MAX,
            off as int <= d@.len(),
            off + consumed <= d@.len(),
            count as int == be32(d@, off + 4),
            available(d@, off as int, 8),
            keys_loop(d@, off as int, len as int, count as int, i as int, consumed as int, texts(out@))
                == key_names_at(d@, off as int, len as int),
            out@.len() == i,
        ensures
            keys_loop(d@, off as int, len as int, count as int, i as int, consumed as int, texts(out@))
                == Ok::<Seq<Seq<char>>, ()>(texts(out@)),
            keys_loop(d@, off as int, len as int, count as int, i as int, consumed as int, texts(out@))
                == key_names_at(d@, off as int, len as int),
            out@.len() <= u32::MAX,
        decreases count - i,
    {
        if !(consumed <= len && len - consumed >= 8) {
            break;
        }
        if !avail_at(d, off, consumed, 8) {
            return Err(());
        }
        let at = off + consumed;
        let size = read_be32(d, at) as u64;
        if size < 8 || size > len - consumed {
            break;
        }
        if !avail_at(d, at, 8, size - 8) {
            return Err(());
        }
        let name = copy_bytes(d, at + 8, size - 8);
        assert(name@ =~= d@.subrange(off + consumed + 8, off + consumed + size));
        let text = utf8_lossy(&name);
        let ghost before = texts(out@);
        out.push(text);
        assert(texts(out@) =~= before.push(lossy_text(d@.subrange(off + consumed + 8, off + consumed + size))));
        consumed = consumed + size;
        i = i + 1;
    }
    Ok(out)
}

/// The name of the QuickTime creation-date key.
pub open spec fn creationdate_key() -> Seq<char> {
    "com.apple.quicktime.creationdate"@
}

/// Index of the first occurrence of `t` in `names` at or after `i`.
pub open spec fn find_first(names: Seq<Seq<char>>, t: Seq<char>, i: int) -> Option<int>
    decreases names.len() - i,
{
    if i < 0 || i >= names.len() {
        None
    } else if names[i] == t {
        Some(i)
    } else {
        find_first(names, t, i + 1)
    }
}

fn find_creationdate(names: &Vec<String>) -> (r: Option<usize>)
    ensures
        match r {
            Some(i) => find_first(texts(names@), creationdate_key(), 0) == Some(i as int) && i < names@.len(),
            None => find_first(texts(names@), creationdate_key(), 0) is None,
        },
{
    let key = "com.apple.quicktime.creationdate";
    let kc = crate::text::chars_of(key);
    let mut i: usize = 0;
    while i < names.len()
        invariant
            i <= names@.len(),
            kc@ == creationdate_key(),
            find_first(texts(names@), creationdate_key(), i as int) == find_first(texts(names@), creationdate_key(), 0),
        decreases names.len() - i,
    {
        if crate::text::str_eq_chars(names[i].as_str(), &kc) {
            assert(texts(names@)[i as int] == creationdate_key());
            return Some(i);
        }
        assert(texts(names@)[i as int] != creationdate_key());
        i = i + 1;
    }
    None
}

pub proof fn lemma_box_header_len(d: Seq<u8>, p: int)
    ensures
        box_header_at(d, p) matches Ok(Some(h)) ==> (h.header_len == 8 || h.header_len == 16) && p
            + h.header_len <= d.len() && p >= 0,
{
}

/// Locates the `keys` and `ilst` children of a `meta` body at `bs`
/// (`blen` bytes); later boxes of a kind replace earlier ones.
pub open spec fn meta_locate(
    d: Seq<u8>,
    bs: int,
    blen: int,
    pos: int,
    keys: Option<(int, int)>,
    ilst: Option<(int, int)>,
) -> Result<(Option<(int, int)>, Option<(int, int)>), ()>
    decreases blen - pos,
{
    if pos + 8 > blen {
        Ok((keys, ilst))
    } else {
        match box_header_at(d, bs + pos) {
            Err(()) => Err(()),
            Ok(None) => Ok((keys, ilst)),
            Ok(Some(h)) => {
                if h.size < h.header_len || h.header_len == 0 {
                    Ok((keys, ilst))
                } else {
                    let e = (bs + pos + h.header_len, h.size - h.header_len);
                    let keys2 = if h.kind == FOURCC_KEYS { Some(e) } else { keys };
                    let ilst2 = if h.kind != FOURCC_KEYS && h.kind == FOURCC_ILST { Some(e) } else { ilst };
                    if pos + h.size > blen {
                        Ok((keys2, ilst2))
                    } else {
                        meta_locate(d, bs, blen, pos + h.size, keys2, ilst2)
                    }
                }
            },
        }
    }
}

/// Boxes of other kinds in a `meta` body are stepped over: a well-formed
/// child that is neither `keys` nor `ilst` and lies inside the body leaves
/// what is located from it the same as what is located after it, so a
/// `hdlr` box before `keys` and `ilst` hides neither.
pub proof fn meta_steps_over_other_boxes(
    d: Seq<u8>,
    bs: int,
    blen: int,
    pos: int,
    h: BoxHeader,
    keys: Option<(int, int)>,
    ilst: Option<(int, int)>,
)
    requires
        pos + 8 <= blen,
        box_header_at(d, bs + pos) == Ok::<Option<BoxHeader>, ()>(Some(h)),
        h.kind != FOURCC_KEYS,
        h.kind != FOURCC_ILST,
        h.header_len <= h.size,
        pos + h.size <= blen,
    ensures
        meta_locate(d, bs, blen, pos, keys, ilst) == meta_locate(d, bs, blen, pos + h.size, keys, ilst),
{
    lemma_box_header_len(d, bs + pos);
}

/// The creation date read from a `meta` payload whose body opens with a
/// box of another kind (such as `hdlr`) is the one read from the rest of
/// the body: the leading box is stepped over.
pub proof fn meta_value_ignores_leading_other_box(d: Seq<u8>, s: int, plen: int, h: BoxHeader)
    requires
        available(d, s, 8),
        !(meta_prefixed(d, s) && plen < 4),
        meta_body(d, s, plen).1 >= 8,
        box_header_at(d, meta_body(d, s, plen).0) == Ok::<Option<BoxHeader>, ()>(Some(h)),
        h.kind != FOURCC_KEYS,
        h.kind != FOURCC_ILST,
        h.header_len <= h.size,
        h.size <= meta_body(d, s, plen).1,
    ensures
        meta_value(d, s, plen) == meta_from_located(
            d,
            meta_locate(d, meta_body(d, s, plen).0, meta_body(d, s, plen).1, h.size as int, None, None),
        ),
{
    let (bs, blen) = meta_body(d, s, plen);
    meta_steps_over_other_boxes(d, bs, blen, 0, h, None, None);
}

/// A `keys` or `ilst` child inside a `meta` body is recorded with its
/// payload's place, whatever stood before it.
pub proof fn meta_records_keys_and_ilst(
    d: Seq<u8>,
    bs: int,
    blen: int,
    pos: int,
    h: BoxHeader,
    keys: Option<(int, int)>,
    ilst: Option<(int, int)>,
)
    requires
        pos + 8 <= blen,
        box_header_at(d, bs + pos) == Ok::<Option<BoxHeader>, ()>(Some(h)),
        h.kind == FOURCC_KEYS || h.kind == FOURCC_ILST,
        h.header_len <= h.size,
        pos + h.size <= blen,
    ensures
        h.kind == FOURCC_KEYS ==> meta_locate(d, bs, blen, pos, keys, ilst) == meta_locate(
            d,
            bs,
            blen,
            pos + h.size,
            Some((bs + pos + h.header_len, h.size - h.header_len)),
            ilst,
        ),
        h.kind == FOURCC_ILST ==> meta_locate(d, bs, blen, pos, keys, ilst) == meta_locate(
            d,
            bs,
            blen,
            pos + h.size,
            keys,
            Some((bs + pos + h.header_len, h.size - h.header_len)),
        ),
{
    lemma_box_header_len(d, bs + pos);
}

/// Reading a `meta` payload at `s` (`plen` bytes): the QuickTime form has
/// no version/flags prefix, the ISO form has four zero bytes first; then
/// the value of the creation-date key, found through `keys` and `ilst`. A
/// payload too short for the prefix it starts with holds nothing.
pub open spec fn meta_value(d: Seq<u8>, s: int, plen: int) -> Result<Option<Seq<char>>, ()> {
    if !available(d, s, 8) {
        Ok(None)
    } else if meta_prefixed(d, s) && plen < 4 {
        Ok(None)
    } else {
        let (bs, blen) = meta_body(d, s, plen);
        meta_from_located(d, meta_locate(d, bs, blen, 0, None, None))
    }
}

/// Whether a `meta` payload at `s` opens with four zero bytes.
pub open spec fn meta_prefixed(d: Seq<u8>, s: int) -> bool {
    d[s] == 0 && d[s + 1] == 0 && d[s + 2] == 0 && d[s + 3] == 0
}

/// Start and length of the box list inside a `meta` payload.
pub open spec fn meta_body(d: Seq<u8>, s: int, plen: int) -> (int, int) {
    if meta_prefixed(d, s) {
        (s + 4, plen - 4)
    } else {
        (s, plen)
    }
}

/// The creation-date value, given where `keys` and `ilst` were found.
pub open spec fn meta_from_located(
    d: Seq<u8>,
    located: Result<(Option<(int, int)>, Option<(int, int)>), ()>,
) -> Result<Option<Seq<char>>, ()> {
    match located {
        Err(()) => Err(()),
        Ok((Some((ko, kl)), Some((io, il)))) => match key_names_at(d, ko, kl) {
            Err(()) => Err(()),
            Ok(names) => match find_first(names, creationdate_key(), 0) {
                None => Ok(None),
                Some(idx) => ilst_scan(d, io, il, idx + 1, 0),
            },
        },
        Ok(_) => Ok(None),
    }
}

/// The box header at `base + off`.
fn header_at(d: &[u8], base: u64, off: u64) -> (r: Result<Option<BoxHeader>, ()>)
    ensures
        r == box_header_at(d@, base + off),
        r matches Ok(Some(h)) ==> (h.header_len == 8 || h.header_len == 16) && base + off
            + h.header_len <= d@.len(),
{
    proof {
        lemma_box_header_len(d@, base + off);
    }
    let dl = d.len(); // a slice length is a usize, so it fits in 64 bits
    assert(d@.len() <= u64::MAX);
    if avail_at(d, base, off, 8) {
        read_box_header(d, base + off)
    } else {
        Ok(None)
    }
}

/// Reads the creation-date value from a `meta` payload at `s` (`plen` bytes).
#[verifier::rlimit(40)]
pub fn parse_meta(d: &[u8], s: u64, plen: u64) -> (r: Result<Option<String>, ()>)
    requires
        s as int <= d@.len(),
    ensures
        text_result(r) == meta_value(d@, s as int, plen as int),
{
    let dl = d.len(); // a slice length is a usize, so it fits in 64 bits
    assert(d@.len() <= u64::MAX);
    if !avail_at(d, s, 0, 8) {
        return Ok(None);
    }
    let i = s as usize;
    let zero = d[i] == 0 && d[i + 1] == 0 && d[i + 2] == 0 && d[i + 3] == 0;
    if zero && plen < 4 {
        return Ok(None);
    }
    let bs = if zero { s + 4 } else { s };
    let blen = if zero { plen - 4 } else { plen };
    assert((bs as int, blen as int) == meta_body(d@, s as int, plen as int));
    let mut keys: Option<(u64, u64)> = None;
    let mut ilst: Option<(u64, u64)> = None;
    let mut pos: u64 = 0;
    while pos <= blen && blen - pos >= 8
        invariant
            d@.len() <= u64::MAX,
            bs as int <= d@.len(),
            (bs as int, blen as int) == meta_body(d@, s as int, plen as int),
            available(d@, s as int, 8),
            meta_locate(d@, bs as int, blen as int, pos as int, opt_pair(keys), opt_pair(ilst))
                == meta_locate(d@, bs as int, blen as int, 0, None, None),
            keys matches Some((o, _)) ==> o as int <= d@.len(),
            ilst matches Some((o, _)) ==> o as int <= d@.len(),
        ensures
            meta_locate(d@, bs as int, blen as int, pos as int, opt_pair(keys), opt_pair(ilst))
                == meta_locate(d@, bs as int, blen as int, 0, None, None),
            meta_locate(d@, bs as int, blen as int, pos as int, opt_pair(keys), opt_pair(ilst))
                == Ok::<(Option<(int, int)>, Option<(int, int)>), ()>((opt_pair(keys), opt_pair(ilst))),
            keys matches Some((o, _)) ==> o as int <= d@.len(),
            ilst matches Some((o, _)) ==> o as int <= d@.len(),
        decreases blen - pos,
    {
        let h = header_at(d, bs, pos);
        match h {
            Err(()) => {
                proof {
                    assert(meta_locate(d@, bs as int, blen as int, pos as int, opt_pair(keys), opt_pair(ilst))
                        == Err::<(Option<(int, int)>, Option<(int, int)>), ()>(()));
                }
                return Err(());
            },
            Ok(None) => {
                break;
            },
            Ok(Some(h)) => {
                if h.size < h.header_len || h.header_len == 0 {
                    break;
                }
                let e = (bs + pos + h.header_len, h.size - h.header_len);
                let ghost prev = meta_locate(d@, bs as int, blen as int, pos as int, opt_pair(keys), opt_pair(ilst));
                if h.kind == FOURCC_KEYS {
                    keys = Some(e);
                } else if h.kind == FOURCC_ILST {
                    ilst = Some(e);
                }
                if h.size > blen - pos {
                    proof {
                        assert(prev == Ok::<(Option<(int, int)>, Option<(int, int)>), ()>((opt_pair(keys), opt_pair(ilst))));
                        assert(meta_locate(d@, bs as int, blen as int, blen as int + 1, opt_pair(keys), opt_pair(ilst))
                            == Ok::<(Option<(int, int)>, Option<(int, int)>), ()>((opt_pair(keys), opt_pair(ilst))));
                    }
                    pos = blen;
                    break;
                }
                pos = pos + h.size;
            },
        }
    }
    match (keys, ilst) {
        (Some((ko, kl)), Some((io, il))) => {
            let names = parse_keys(d, ko, kl)?;
            match find_creationdate(&names) {
                None => Ok(None),
                Some(idx) => parse_ilst_string(d, io, il, (idx + 1) as u32),
            }
        },
        _ => Ok(None),
    }
}

/// The integer view of an optional pair of offsets.
pub open spec fn opt_pair(o: Option<(u64, u64)>) -> Option<(int, int)> {
    match o {
        Some((a, b)) => Some((a as int, b as int)),
        None => None,
    }
}

/// The creation-date value found in the first `meta` child of a `udta`
/// payload at `s` (`plen` bytes).
pub open spec fn udta_scan(d: Seq<u8>, s: int, plen: int, pos: int) -> Result<Option<Seq<char>>, ()>
    decreases plen - pos,
{
    if pos + 8 > plen {
        Ok(None)
    } else {
        match box_header_at(d, s + pos) {
            Err(()) => Err(()),
            Ok(None) => Ok(None),
            Ok(Some(h)) => {
                if h.size < h.header_len || h.header_len == 0 {
                    Ok(None)
                } else if h.kind == FOURCC_META {
                    meta_value(d, s + pos + h.header_len, h.size - h.header_len)
                } else if pos + h.size > plen {
                    Ok(None)
                } else {
                    udta_scan(d, s, plen, pos + h.size)
                }
            },
        }
    }
}

/// Reads the creation-date value from a `udta` payload at `s` (`plen` bytes).
pub fn parse_udta(d: &[u8], s: u64, plen: u64) -> (r: Result<Option<String>, ()>)
    requires
        s as int <= d@.len(),
    ensures
        text_result(r) == udta_scan(d@, s as int, plen as int, 0),
{
    let dl = d.len(); // a slice length is a usize, so it fits in 64 bits
    assert(d@.len() <= u64::MAX);
    let mut pos: u64 = 0;
    while pos <= plen && plen - pos >= 8
        invariant
            d@.len() <= u64::MAX,
            s as int <= d@.len(),
            udta_scan(d@, s as int, plen as int, pos as int) == udta_scan(d@, s as int, plen as int, 0),
        decreases plen - pos,
    {
        match header_at(d, s, pos) {
            Err(()) => {
                return Err(());
            },
            Ok(None) => {
                return Ok(None);
            },
            Ok(Some(h)) => {
                if h.size < h.header_len || h.header_len == 0 {
                    return Ok(None);
                }
                if h.kind == FOURCC_META {
                    return parse_meta(d, s + pos + h.header_len, h.size - h.header_len);
                }
                if h.size > plen - pos {
                    return Ok(None);
                }
                pos = pos + h.size;
            },
        }
    }
    Ok(None)
}

/// The `mvhd` creation time and the QuickTime creation-date text found in
/// a `moov` payload (`plen` bytes at the start of `d`). Later `mvhd` and
/// `udta` boxes replace what earlier ones gave; a `mvhd` or `udta` that
/// cannot be read gives nothing.
pub open spec fn moov_scan(
    d: Seq<u8>,
    plen: int,
    pos: int,
    mvhd: Option<u64>,
    qt: Option<Seq<char>>,
) -> Result<(Option<u64>, Option<Seq<char>>), ()>
    decreases plen - pos,
{
    if pos + 8 > plen {
        Ok((mvhd, qt))
    } else {
        match box_header_at(d, pos) {
            Err(()) => Err(()),
            Ok(None) => Ok((mvhd, qt)),
            Ok(Some(h)) => {
                if h.size < h.header_len || h.header_len == 0 {
                    Ok((mvhd, qt))
                } else {
                    let (mvhd2, qt2) = moov_child_effect(d, h, pos, mvhd, qt);
                    if pos + h.size > plen {
                        Ok((mvhd2, qt2))
                    } else {
                        moov_scan(d, plen, pos + h.size, mvhd2, qt2)
                    }
                }
            },
        }
    }
}

/// What one child box of `moov` at `pos` changes: a `mvhd` sets the
/// creation time, a `udta` sets the creation-date text.
#[verifier::opaque]
pub open spec fn moov_child_effect(
    d: Seq<u8>,
    h: BoxHeader,
    pos: int,
    mvhd: Option<u64>,
    qt: Option<Seq<char>>,
) -> (Option<u64>, Option<Seq<char>>) {
    let q = pos + h.header_len;
    if h.kind == FOURCC_MVHD {
        (
            match mvhd_creation_at(d, q) {
                Ok(t) => Some(t),
                Err(()) => None,
            },
            qt,
        )
    } else if h.kind == FOURCC_UDTA {
        (
            mvhd,
            match udta_scan(d, q, h.size - h.header_len, 0) {
                Ok(Some(t)) => Some(t),
                _ => None,
            },
        )
    } else {
        (mvhd, qt)
    }
}

fn apply_moov_child(d: &[u8], h: BoxHeader, pos: u64, mvhd: Option<u64>, qt: Option<String>) -> (r: (
    Option<u64>,
    Option<String>,
))
    requires
        pos + h.header_len <= d@.len(),
        h.size >= h.header_len,
        d@.len() <= u64::MAX,
    ensures
        (r.0, opt_text(r.1)) == moov_child_effect(d@, h, pos as int, mvhd, opt_text(qt)),
{
    reveal(moov_child_effect);
    let q = pos + h.header_len;
    if h.kind == FOURCC_MVHD {
        let m = match read_mvhd_creation(d, q) {
            Ok(t) => Some(t),
            Err(()) => None,
        };
        (m, qt)
    } else if h.kind == FOURCC_UDTA {
        let t = match parse_udta(d, q, h.size - h.header_len) {
            Ok(Some(t)) => Some(t),
            _ => None,
        };
        proof {
            assert(opt_text(t) == match udta_scan(d@, q as int, h.size - h.header_len, 0) {
                Ok(Some(t)) => Some(t),
                _ => None::<Seq<char>>,
            });
        }
        (mvhd, t)
    } else {
        (mvhd, qt)
    }
}

/// The text view of an optional string.
pub open spec fn opt_text(o: Option<String>) -> Option<Seq<char>> {
    match o {
        Some(t) => Some(t@),
        None => None,
    }
}

/// Reads the `mvhd` creation time (seconds since 1904) and the QuickTime
/// creation-date text from a `moov` payload of `payload_len` bytes whose
/// first bytes are `d`.
pub fn parse_moov(d: &[u8], payload_len: u64) -> (r: Result<(Option<u64>, Option<String>), ()>)
    ensures
        match r {
            Ok((m, q)) => moov_scan(d@, payload_len as int, 0, None, None) == Ok::<
                (Option<u64>, Option<Seq<char>>),
                (),
            >((m, opt_text(q))),
            Err(()) => moov_scan(d@, payload_len as int, 0, None, None) == Err::<
                (Option<u64>, Option<Seq<char>>),
                (),
            >(()),
        },
{
    let dl = d.len(); // a slice length is a usize, so it fits in 64 bits
    assert(d@.len() <= u64::MAX);
    let plen = payload_len;
    let mut mvhd: Option<u64> = None;
    let mut qt: Option<String> = None;
    let mut pos: u64 = 0;
    while pos <= plen && plen - pos >= 8
        invariant
            d@.len() <= u64::MAX,
            plen == payload_len,
            moov_scan(d@, plen as int, pos as int, mvhd, opt_text(qt)) == moov_scan(d@, plen as int, 0, None, None),
        ensures
            moov_scan(d@, plen as int, pos as int, mvhd, opt_text(qt)) == moov_scan(d@, plen as int, 0, None, None),
            moov_scan(d@, plen as int, pos as int, mvhd, opt_text(qt)) == Ok::<
                (Option<u64>, Option<Seq<char>>),
                (),
            >((mvhd, opt_text(qt))),
        decreases plen - pos,
    {
        match header_at(d, 0, pos) {
            Err(()) => {
                return Err(());
            },
            Ok(None) => {
                break;
            },
            Ok(Some(h)) => {
                if h.size < h.header_len || h.header_len == 0 {
                    break;
                }
                let (m2, q2) = apply_moov_child(d, h, pos, mvhd, qt);
                mvhd = m2;
                qt = q2;
                if h.size > plen - pos {
                    pos = plen;
                    break;
                }
                pos = pos + h.size;
            },
        }
    }
    Ok((mvhd, qt))
}

/// What the top-level walk does next.
#[derive(Debug, Clone, Copy, PartialEq, Eq, Structural)]
pub enum TopLevelStep {
    /// Read the box header at this file offset and hand it to `toplevel_next`.
    ReadHeaderAt(u64),
    /// The `moov` box: its payload starts at `payload_start` and is
    /// `payload_len` bytes long.
    ParseMoov { payload_start: u64, payload_len: u64 },
    /// No `moov` box will be found.
    Finished,
}

/// The offsets the top-level walk examines: below both the file length
/// and the scan budget.
pub open spec fn walk_limit(file_len: u64) -> int {
    if file_len < MAX_TOPLEVEL_WALK {
        file_len as int
    } else {
        MAX_TOPLEVEL_WALK as int
    }
}

pub open spec fn toplevel_first_of(file_len: u64) -> TopLevelStep {
    if 0 < walk_limit(file_len) {
        TopLevelStep::ReadHeaderAt(0)
    } else {
        TopLevelStep::Finished
    }
}

/// The step after reading the header at `pos`: a box that runs past the
/// end of the file (or whose size overflows) ends at the end of the file;
/// `moov` is parsed, unless it is shorter than its own header (malformed);
/// a zero size (box to end of file) or the end of the budget stops the walk.
pub open spec fn toplevel_step_of(
    pos: u64,
    file_len: u64,
    header: Result<Option<BoxHeader>, ()>,
) -> TopLevelStep {
    match header {
        Err(()) => TopLevelStep::Finished,
        Ok(None) => TopLevelStep::Finished,
        Ok(Some(h)) => {
            let end: int = if pos + h.size <= u64::MAX {
                if pos + h.size < file_len { pos + h.size } else { file_len as int }
            } else {
                file_len as int
            };
            if h.kind == FOURCC_MOOV {
                if end - pos < h.header_len {
                    TopLevelStep::Finished
                } else {
                    TopLevelStep::ParseMoov {
                        payload_start: (pos + h.header_len) as u64,
                        payload_len: (end - pos - h.header_len) as u64,
                    }
                }
            } else if h.size == 0 {
                TopLevelStep::Finished
            } else if end < walk_limit(file_len) {
                TopLevelStep::ReadHeaderAt(end as u64)
            } else {
                TopLevelStep::Finished
            }
        },
    }
}

/// The first step of the walk over a file of `file_len` bytes.
pub fn toplevel_first(file_len: u64) -> (r: TopLevelStep)
    ensures
        r == toplevel_first_of(file_len),
{
    let limit = if file_len < MAX_TOPLEVEL_WALK { file_len } else { MAX_TOPLEVEL_WALK };
    if 0 < limit {
        TopLevelStep::ReadHeaderAt(0)
    } else {
        TopLevelStep::Finished
    }
}

/// The next step, given the header read at `pos` (a position the walk
/// asked for). The walk only moves forward.
pub fn toplevel_next(pos: u64, file_len: u64, header: Result<Option<BoxHeader>, ()>) -> (r: TopLevelStep)
    requires
        pos < walk_limit(file_len),
        header matches Ok(Some(h)) ==> h.header_len == 8 || h.header_len == 16,
    ensures
        r == toplevel_step_of(pos, file_len, header),
        r matches TopLevelStep::ReadHeaderAt(p) ==> pos < p < walk_limit(file_len),
{
    match header {
        Err(()) => TopLevelStep::Finished,
        Ok(None) => TopLevelStep::Finished,
        Ok(Some(h)) => {
            let end: u64 = match pos.checked_add(h.size) {
                Some(e) => if e < file_len { e } else { file_len },
                None => file_len,
            };
            if h.kind == FOURCC_MOOV {
                if end - pos < h.header_len {
                    TopLevelStep::Finished
                } else {
                    let payload_len = end - pos - h.header_len;
                    TopLevelStep::ParseMoov { payload_start: pos + h.header_len, payload_len }
                }
            } else if h.size == 0 {
                TopLevelStep::Finished
            } else {
                let limit = if file_len < MAX_TOPLEVEL_WALK { file_len } else { MAX_TOPLEVEL_WALK };
                if end < limit {
                    TopLevelStep::ReadHeaderAt(end)
                } else {
                    TopLevelStep::Finished
                }
            }
        },
    }
}

/// The QuickTime date format with a colon-less offset.
pub open spec fn qt_offset_format() -> Seq<char> {
    seq!['%', 'Y', '-', '%', 'm', '-', '%', 'd', 'T', '%', 'H', ':', '%', 'M', ':', '%', 'S', '%', 'z']
}

/// The instant a QuickTime creation-date text names: RFC 3339 first, then
/// `YYYY-MM-DDTHH:MM:SS-0700` (offset without a colon), after trimming.
pub open spec fn qt_instant(s: Seq<char>) -> Option<(i64, u32)> {
    let t = trimmed(s);
    if t.len() == 0 {
        None
    } else {
        match rfc3339_instant(t) {
            Some(x) => Some(x),
            None => offset_datetime_instant(t, qt_offset_format()),
        }
    }
}

/// Parses a QuickTime creation-date text (typically ISO-8601 with an
/// offset, e.g. `2024-08-12T14:32:11-0700`) into a Unix timestamp and
/// nanoseconds.
pub fn parse_qt_date(s: &str) -> (r: Option<(i64, u32)>)
    ensures
        r == qt_instant(s@),
        r matches Some((t, n)) ==> crate::clock::in_chrono_days(t as int) && n < 2_000_000_000,
{
    let cs = crate::text::chars_of(s);
    let t = crate::text::trim_chars(&cs);
    if t.len() == 0 {
        return None;
    }
    let ts = crate::text::string_of(&t);
    match crate::clock::parse_rfc3339(ts.as_str()) {
        Some(x) => Some(x),
        None => {
            let fmt = crate::text::string_of(
                &['%', 'Y', '-', '%', 'm', '-', '%', 'd', 'T', '%', 'H', ':', '%', 'M', ':', '%', 'S', '%', 'z'],
            );
            proof {
                assert(fmt@ =~= qt_offset_format());
            }
            crate::clock::parse_offset_datetime(ts.as_str(), fmt.as_str())
        },
    }
}

/// The Unix timestamp of an `mvhd` creation time (seconds since 1904),
/// computed on 64-bit values that wrap.
pub open spec fn mvhd_unix(secs: u64) -> i64 {
    let s = secs as i64;
    let v = s - EPOCH_OFFSET_SECS;
    if v < i64::MIN {
        (v + 18446744073709551616) as i64
    } else {
        v as i64
    }
}

pub fn mvhd_to_unix(secs: u64) -> (r: i64)
    ensures
        r == mvhd_unix(secs),
{
    let s = secs as i64;
    s.wrapping_sub(EPOCH_OFFSET_SECS)
}

/// The date of a video from what its `moov` box gave: the QuickTime
/// creation date wins over the `mvhd` time.
pub open spec fn mp4_choice(
    qt_local: Option<LocalDateTime>,
    mvhd_local: Option<LocalDateTime>,
) -> Option<(LocalDateTime, DateSource)> {
    match qt_local {
        Some(t) => Some((t, DateSource::QuickTime)),
        None => match mvhd_local {
            Some(t) => Some((t, DateSource::Mp4Box)),
            None => None,
        },
    }
}

/// Picks the date of a video from the local times of its QuickTime date
/// and of its `mvhd` creation time.
pub fn choose_mp4_date(qt_local: Option<LocalDateTime>, mvhd_local: Option<LocalDateTime>) -> (r:
    Option<(LocalDateTime, DateSource)>)
    ensures
        r == mp4_choice(qt_local, mvhd_local),
{
    match qt_local {
        Some(t) => Some((t, DateSource::QuickTime)),
        None => match mvhd_local {
            Some(t) => Some((t, DateSource::Mp4Box)),
            None => None,
        },
    }
}

/// Whether a QuickTime creation-date text names an instant that chrono can
/// place in local time (see `placeable_instant`).
pub open spec fn qt_placeable(qt: Option<&str>) -> bool {
    qt matches Some(s) && qt_instant(s@) matches Some((ts, ns)) && placeable_instant(ts as int, ns as int)
}

/// Whether an `mvhd` creation time falls on an instant that chrono can
/// place in local time.
pub open spec fn mvhd_placeable(mvhd: Option<u64>) -> bool {
    mvhd matches Some(m) && placeable_instant(mvhd_unix(m) as int, 0)
}

/// The date of a video from the two values found in its `moov` box,
/// placed in local time.
pub fn mp4_date(mvhd: Option<u64>, qt: Option<&str>) -> (r: Option<(LocalDateTime, DateSource)>)
    ensures
        mvhd is None && (qt is None || qt_instant(qt.unwrap()@) is None) ==> r is None,
        r matches Some((t, DateSource::QuickTime)) ==> qt is Some && qt_instant(qt.unwrap()@) == Some(
            (t.timestamp, t.local.nanosecond),
        ),
        r matches Some((t, DateSource::Mp4Box)) ==> mvhd is Some && t.timestamp == mvhd_unix(
            mvhd.unwrap(),
        ) && t.local.nanosecond == 0,
        r matches Some((t, src)) ==> (src == DateSource::QuickTime || src == DateSource::Mp4Box) && t.wf(),
        qt_placeable(qt) ==> r matches Some((_, DateSource::QuickTime)),
        !qt_placeable(qt) && mvhd_placeable(mvhd) ==> r matches Some((_, DateSource::Mp4Box)),
        !qt_placeable(qt) && !mvhd_placeable(mvhd) ==> r is None,
{
    let qt_local = match qt {
        Some(s) => match parse_qt_date(s) {
            Some((ts, ns)) => crate::clock::local_from_timestamp(ts, ns),
            None => None,
        },
        None => None,
    };
    let mvhd_local = match mvhd {
        Some(secs) => crate::clock::local_from_timestamp(mvhd_to_unix(secs), 0),
        None => None,
    };
    choose_mp4_date(qt_local, mvhd_local)
}

/// In an `ilst` walk, an item whose key index is not the one sought, and
/// which lies inside the list, is stepped over.
pub proof fn ilst_steps_over_other_items(d: Seq<u8>, off: int, len: int, target: int, pos: int)
    requires
        pos + 8 <= len,
        available(d, off + pos, 8),
        be32(d, off + pos + 4) != target,
        8 <= be32(d, off + pos),
        pos + be32(d, off + pos) <= len,
    ensures
        ilst_scan(d, off, len, target, pos) == ilst_scan(d, off, len, target, pos + be32(d, off + pos)),
{
}

/// In a `udta` walk, a well-formed child that is not `meta` and lies inside
/// the payload is stepped over.
pub proof fn udta_steps_over_other_boxes(d: Seq<u8>, s: int, plen: int, pos: int, h: BoxHeader)
    requires
        pos + 8 <= plen,
        box_header_at(d, s + pos) == Ok::<Option<BoxHeader>, ()>(Some(h)),
        h.kind != FOURCC_META,
        h.header_len <= h.size,
        pos + h.size <= plen,
    ensures
        udta_scan(d, s, plen, pos) == udta_scan(d, s, plen, pos + h.size),
{
    lemma_box_header_len(d, s + pos);
}

/// In a `moov` walk, a well-formed child that is neither `mvhd` nor `udta`
/// (a `trak`, say) and lies inside the payload is stepped over.
pub proof fn moov_steps_over_other_boxes(
    d: Seq<u8>,
    plen: int,
    pos: int,
    h: BoxHeader,
    mvhd: Option<u64>,
    qt: Option<Seq<char>>,
)
    requires
        pos + 8 <= plen,
        box_header_at(d, pos) == Ok::<Option<BoxHeader>, ()>(Some(h)),
        h.kind != FOURCC_MVHD,
        h.kind != FOURCC_UDTA,
        h.header_len <= h.size,
        pos + h.size <= plen,
    ensures
        moov_scan(d, plen, pos, mvhd, qt) == moov_scan(d, plen, pos + h.size, mvhd, qt),
{
    lemma_box_header_len(d, pos);
    reveal(moov_child_effect);
}

/// The value of the creation-date key comes from the `ilst` item whose
/// index is one more than the key's first position in `keys`.
pub proof fn creation_date_item_follows_key_order(d: Seq<u8>, ko: int, kl: int, io: int, il: int, names: Seq<Seq<char>>, i: int)
    requires
        key_names_at(d, ko, kl) == Ok::<Seq<Seq<char>>, ()>(names),
        0 <= i < names.len(),
        names[i] == "com.apple.quicktime.creationdate"@,
        forall|j: int| 0 <= j < i ==> names[j] != "com.apple.quicktime.creationdate"@,
    ensures
        meta_from_located(d, Ok((Some((ko, kl)), Some((io, il))))) == ilst_scan(d, io, il, i + 1, 0),
{
    lemma_find_first_is_first(names, creationdate_key(), 0, i);
}

proof fn lemma_find_first_is_first(names: Seq<Seq<char>>, t: Seq<char>, from: int, i: int)
    requires
        0 <= from <= i < names.len(),
        names[i] == t,
        forall|j: int| from <= j < i ==> names[j] != t,
    ensures
        find_first(names, t, from) == Some(i),
    decreases i - from,
{
    if from < i {
        lemma_find_first_is_first(names, t, from + 1, i);
    }
}

} // verus!
