//! Which file extensions count as images and videos, and which video
//! containers are read in-process or through `ffprobe`.

use vstd::prelude::*;
use crate::types::MediaType;
use crate::paths::extension_of;
use crate::text::lower_ascii_all;

verus! {

pub open spec fn image_exts() -> Seq<Seq<char>> {
    seq![
        ".jpg"@, ".jpeg"@, ".png"@, ".gif"@, ".webp"@, ".bmp"@, ".tiff"@, ".tif"@, ".heic"@,
        ".heif"@, ".cr2"@, ".cr3"@, ".nef"@, ".arw"@, ".orf"@, ".rw2"@, ".dng"@, ".raf"@,
    ]
}

pub open spec fn video_exts() -> Seq<Seq<char>> {
    seq![".mp4"@, ".mov"@, ".avi"@, ".mkv"@, ".wmv"@, ".flv"@, ".webm"@, ".3gp"@, ".m4v"@]
}

/// Containers read by the in-process ISO-BMFF parser.
pub open spec fn mp4parse_exts() -> Seq<Seq<char>> {
    seq![".mp4"@, ".mov"@, ".m4v"@, ".3gp"@]
}

/// Containers whose date only `ffprobe` can read.
pub open spec fn ffprobe_exts() -> Seq<Seq<char>> {
    seq![".avi"@, ".mkv"@, ".wmv"@, ".flv"@, ".webm"@]
}

/// The lowercased extension of a path with a leading dot, or empty text
/// when the path has no extension.
pub open spec fn lower_ext_of(path: Seq<char>) -> Seq<char> {
    match extension_of(path) {
        Some(e) => seq!['.'] + lower_ascii_all(e),
        None => Seq::empty(),
    }
}

pub open spec fn classify_of(path: Seq<char>) -> Option<MediaType> {
    let e = lower_ext_of(path);
    if image_exts().contains(e) {
        Some(MediaType::Image)
    } else if video_exts().contains(e) {
        Some(MediaType::Video)
    } else {
        None
    }
}

/// Returns the lowercased extension (with leading dot) of `path`, or an
/// empty string.
pub fn lower_ext(path: &str) -> (r: String)
    ensures
        r@ == lower_ext_of(path@),
{
    let p = crate::text::chars_of(path);
    match crate::paths::extension(&p) {
        Some(e) => {
            let mut out: Vec<char> = Vec::new();
            out.push('.');
            let low = crate::text::lower_ascii_chars(&e);
            crate::text::push_all(&mut out, &low);
            proof {
                assert(out@ =~= seq!['.'] + lower_ascii_all(e@));
            }
            crate::text::string_of(&out)
        },
        None => String::new(),
    }
}

/// Whether `ext` is one of `list`.
fn ext_in(ext: &[char], list: &[&str]) -> (r: bool)
    ensures
        r == list@.map_values(|s: &str| s@).contains(ext@),
{
    let ghost lv = list@.map_values(|s: &str| s@);
    let mut k: usize = 0;
    while k < list.len()
        invariant
            k <= list.len(),
            lv == list@.map_values(|s: &str| s@),
            forall|j: int| 0 <= j < k ==> lv[j] != ext@,
        decreases list.len() - k,
    {
        if crate::text::str_eq_chars(list[k], ext) {
            proof {
                assert(lv[k as int] == ext@);
            }
            return true;
        }
        k = k + 1;
    }
    false
}

fn image_list() -> (r: [&'static str; 18])
    ensures
        r@.map_values(|s: &str| s@) == image_exts(),
{
    let r = [
        ".jpg", ".jpeg", ".png", ".gif", ".webp", ".bmp", ".tiff", ".tif", ".heic", ".heif",
        ".cr2", ".cr3", ".nef", ".arw", ".orf", ".rw2", ".dng", ".raf",
    ];
    assert(r@.map_values(|s: &str| s@) =~= image_exts());
    r
}

fn video_list() -> (r: [&'static str; 9])
    ensures
        r@.map_values(|s: &str| s@) == video_exts(),
{
    let r = [".mp4", ".mov", ".avi", ".mkv", ".wmv", ".flv", ".webm", ".3gp", ".m4v"];
    assert(r@.map_values(|s: &str| s@) =~= video_exts());
    r
}

fn mp4parse_list() -> (r: [&'static str; 4])
    ensures
        r@.map_values(|s: &str| s@) == mp4parse_exts(),
{
    let r = [".mp4", ".mov", ".m4v", ".3gp"];
    assert(r@.map_values(|s: &str| s@) =~= mp4parse_exts());
    r
}

fn ffprobe_list() -> (r: [&'static str; 5])
    ensures
        r@.map_values(|s: &str| s@) == ffprobe_exts(),
{
    let r = [".avi", ".mkv", ".wmv", ".flv", ".webm"];
    assert(r@.map_values(|s: &str| s@) =~= ffprobe_exts());
    r
}

/// The media kind of a path, judged by its extension.
pub fn classify(path: &str) -> (r: Option<MediaType>)
    ensures
        r == classify_of(path@),
{
    let ext = lower_ext(path);
    let e = crate::text::chars_of(ext.as_str());
    let images = image_list();
    if ext_in(&e, &images) {
        return Some(MediaType::Image);
    }
    let videos = video_list();
    if ext_in(&e, &videos) {
        Some(MediaType::Video)
    } else {
        None
    }
}

/// Whether the extension (lowercase, with dot) is read by the ISO-BMFF parser.
pub fn uses_mp4parse(ext: &str) -> (r: bool)
    ensures
        r == mp4parse_exts().contains(ext@),
{
    let e = crate::text::chars_of(ext);
    let list = mp4parse_list();
    ext_in(&e, &list)
}

/// Whether the extension (lowercase, with dot) needs `ffprobe`.
pub fn uses_ffprobe(ext: &str) -> (r: bool)
    ensures
        r == ffprobe_exts().contains(ext@),
{
    let e = crate::text::chars_of(ext);
    let list = ffprobe_list();
    ext_in(&e, &list)
}

/// Every video extension is read by exactly one of the two readers: the
/// in-process ISO-BMFF parser or `ffprobe`, and no other extension is read
/// by either.
pub proof fn video_readers_partition(e: Seq<char>)
    ensures
        !(mp4parse_exts().contains(e) && ffprobe_exts().contains(e)),
        video_exts().contains(e) <==> (mp4parse_exts().contains(e) || ffprobe_exts().contains(e)),
{
    reveal_strlit(".mp4");
    reveal_strlit(".mov");
    reveal_strlit(".m4v");
    reveal_strlit(".3gp");
    reveal_strlit(".avi");
    reveal_strlit(".mkv");
    reveal_strlit(".wmv");
    reveal_strlit(".flv");
    reveal_strlit(".webm");
    let m = mp4parse_exts();
    let f = ffprobe_exts();
    let v = video_exts();
    assert forall|i: int, j: int| 0 <= i < m.len() && 0 <= j < f.len() implies m[i] != f[j] by {
        assert(m[i][1] != f[j][1] || m[i][2] != f[j][2] || m[i][3] != f[j][3]);
    }
    if v.contains(e) {
        let k = choose|k: int| 0 <= k < v.len() && v[k] == e;
        if k == 0 { assert(m[0] == e); }
        else if k == 1 { assert(m[1] == e); }
        else if k == 2 { assert(f[0] == e); }
        else if k == 3 { assert(f[1] == e); }
        else if k == 4 { assert(f[2] == e); }
        else if k == 5 { assert(f[3] == e); }
        else if k == 6 { assert(f[4] == e); }
        else if k == 7 { assert(m[3] == e); }
        else { assert(m[2] == e); }
    }
    if m.contains(e) {
        let k = choose|k: int| 0 <= k < m.len() && m[k] == e;
        if k == 0 { assert(v[0] == e); }
        else if k == 1 { assert(v[1] == e); }
        else if k == 2 { assert(v[8] == e); }
        else { assert(v[7] == e); }
    }
    if f.contains(e) {
        let k = choose|k: int| 0 <= k < f.len() && f[k] == e;
        assert(v[k + 2] == e);
    }
}

/// The image extensions the project documents, lower case, without the dot.
pub open spec fn documented_images() -> Seq<Seq<char>> {
    seq!["jpg"@, "jpeg"@, "png"@, "gif"@, "webp"@, "bmp"@, "tiff"@, "tif"@, "heic"@, "heif"@, "cr2"@, "cr3"@, "nef"@, "arw"@, "orf"@, "rw2"@, "dng"@, "raf"@]
}

/// The video extensions the project documents, lower case, without the dot.
pub open spec fn documented_videos() -> Seq<Seq<char>> {
    seq!["mp4"@, "mov"@, "avi"@, "mkv"@, "wmv"@, "flv"@, "webm"@, "3gp"@, "m4v"@]
}

/// The extension of a path, lowercased, without the dot.
pub open spec fn lowered_extension(p: Seq<char>) -> Option<Seq<char>> {
    match extension_of(p) {
        Some(e) => Some(lower_ascii_all(e)),
        None => None,
    }
}

proof fn lemma_dotted(docs: Seq<Seq<char>>, list: Seq<Seq<char>>, x: Seq<char>)
    requires
        list.len() == docs.len(),
        forall|k: int| 0 <= k < docs.len() ==> #[trigger] list[k] == seq!['.'] + docs[k],
    ensures
        list.contains(seq!['.'] + x) <==> docs.contains(x),
{
    if docs.contains(x) {
        let k = choose|k: int| 0 <= k < docs.len() && docs[k] == x;
        assert(list[k] == seq!['.'] + x);
    }
    if list.contains(seq!['.'] + x) {
        let k = choose|k: int| 0 <= k < list.len() && list[k] == seq!['.'] + x;
        assert(docs[k] =~= (seq!['.'] + x).subrange(1, x.len() as int + 1));
        assert(x =~= (seq!['.'] + x).subrange(1, x.len() as int + 1));
    }
}

proof fn lemma_images_not_videos(k: int, j: int)
    requires
        0 <= k < documented_images().len(),
        0 <= j < documented_videos().len(),
    ensures
        documented_images()[k] != documented_videos()[j],
{
    reveal_strlit("jpg");
    reveal_strlit("jpeg");
    reveal_strlit("png");
    reveal_strlit("gif");
    reveal_strlit("webp");
    reveal_strlit("bmp");
    reveal_strlit("tiff");
    reveal_strlit("tif");
    reveal_strlit("heic");
    reveal_strlit("heif");
    reveal_strlit("cr2");
    reveal_strlit("cr3");
    reveal_strlit("nef");
    reveal_strlit("arw");
    reveal_strlit("orf");
    reveal_strlit("rw2");
    reveal_strlit("dng");
    reveal_strlit("raf");
    reveal_strlit("mp4");
    reveal_strlit("mov");
    reveal_strlit("avi");
    reveal_strlit("mkv");
    reveal_strlit("wmv");
    reveal_strlit("flv");
    reveal_strlit("webm");
    reveal_strlit("3gp");
    reveal_strlit("m4v");
    let di = documented_images();
    let dv = documented_videos();
    if k == 0 {
        assert(di[0] =~= seq!['j', 'p', 'g']);
    }
    if k == 1 {
        assert(di[1] =~= seq!['j', 'p', 'e', 'g']);
    }
    if k == 2 {
        assert(di[2] =~= seq!['p', 'n', 'g']);
    }
    if k == 3 {
        assert(di[3] =~= seq!['g', 'i', 'f']);
    }
    if k == 4 {
        assert(di[4] =~= seq!['w', 'e', 'b', 'p']);
    }
    if k == 5 {
        assert(di[5] =~= seq!['b', 'm', 'p']);
    }
    if k == 6 {
        assert(di[6] =~= seq!['t', 'i', 'f', 'f']);
    }
    if k == 7 {
        assert(di[7] =~= seq!['t', 'i', 'f']);
    }
    if k == 8 {
        assert(di[8] =~= seq!['h', 'e', 'i', 'c']);
    }
    if k == 9 {
        assert(di[9] =~= seq!['h', 'e', 'i', 'f']);
    }
    if k == 10 {
        assert(di[10] =~= seq!['c', 'r', '2']);
    }
    if k == 11 {
        assert(di[11] =~= seq!['c', 'r', '3']);
    }
    if k == 12 {
        assert(di[12] =~= seq!['n', 'e', 'f']);
    }
    if k == 13 {
        assert(di[13] =~= seq!['a', 'r', 'w']);
    }
    if k == 14 {
        assert(di[14] =~= seq!['o', 'r', 'f']);
    }
    if k == 15 {
        assert(di[15] =~= seq!['r', 'w', '2']);
    }
    if k == 16 {
        assert(di[16] =~= seq!['d', 'n', 'g']);
    }
    if k == 17 {
        assert(di[17] =~= seq!['r', 'a', 'f']);
    }
    assert(dv[j] =~= dv[j]);
    if j == 0 { assert(dv[0] =~= seq!['m', 'p', '4']); }
    if j == 1 { assert(dv[1] =~= seq!['m', 'o', 'v']); }
    if j == 2 { assert(dv[2] =~= seq!['a', 'v', 'i']); }
    if j == 3 { assert(dv[3] =~= seq!['m', 'k', 'v']); }
    if j == 4 { assert(dv[4] =~= seq!['w', 'm', 'v']); }
    if j == 5 { assert(dv[5] =~= seq!['f', 'l', 'v']); }
    if j == 6 { assert(dv[6] =~= seq!['w', 'e', 'b', 'm']); }
    if j == 7 { assert(dv[7] =~= seq!['3', 'g', 'p']); }
    if j == 8 { assert(dv[8] =~= seq!['m', '4', 'v']); }
    if di[k] == dv[j] {
        assert(di[k][0] == dv[j][0] && di[k][1] == dv[j][1] && di[k].len() == dv[j].len());
        if di[k].len() == 4 {
            assert(di[k][3] == dv[j][3]);
        }
    }
}

/// A path is an image exactly when its extension, in any letter case, is
/// one of the documented image extensions (`jpg`, `heic`, `cr2`, ...), a
/// video exactly when it is one of the documented video extensions
/// (`mp4`, `mov`, `mkv`, ...), and neither otherwise.
pub proof fn classify_by_documented_extension(p: Seq<char>)
    ensures
        (lowered_extension(p) is Some && documented_images().contains(lowered_extension(p)->Some_0))
            ==> classify_of(p) == Some(MediaType::Image),
        (lowered_extension(p) is Some && documented_videos().contains(lowered_extension(p)->Some_0))
            ==> classify_of(p) == Some(MediaType::Video),
        (lowered_extension(p) is None || (!documented_images().contains(lowered_extension(p)->Some_0)
            && !documented_videos().contains(lowered_extension(p)->Some_0))) ==> classify_of(p) is None,
{
    reveal_strlit("jpg");
    reveal_strlit(".jpg");
    reveal_strlit("jpeg");
    reveal_strlit(".jpeg");
    reveal_strlit("png");
    reveal_strlit(".png");
    reveal_strlit("gif");
    reveal_strlit(".gif");
    reveal_strlit("webp");
    reveal_strlit(".webp");
    reveal_strlit("bmp");
    reveal_strlit(".bmp");
    reveal_strlit("tiff");
    reveal_strlit(".tiff");
    reveal_strlit("tif");
    reveal_strlit(".tif");
    reveal_strlit("heic");
    reveal_strlit(".heic");
    reveal_strlit("heif");
    reveal_strlit(".heif");
    reveal_strlit("cr2");
    reveal_strlit(".cr2");
    reveal_strlit("cr3");
    reveal_strlit(".cr3");
    reveal_strlit("nef");
    reveal_strlit(".nef");
    reveal_strlit("arw");
    reveal_strlit(".arw");
    reveal_strlit("orf");
    reveal_strlit(".orf");
    reveal_strlit("rw2");
    reveal_strlit(".rw2");
    reveal_strlit("dng");
    reveal_strlit(".dng");
    reveal_strlit("raf");
    reveal_strlit(".raf");
    reveal_strlit("mp4");
    reveal_strlit(".mp4");
    reveal_strlit("mov");
    reveal_strlit(".mov");
    reveal_strlit("avi");
    reveal_strlit(".avi");
    reveal_strlit("mkv");
    reveal_strlit(".mkv");
    reveal_strlit("wmv");
    reveal_strlit(".wmv");
    reveal_strlit("flv");
    reveal_strlit(".flv");
    reveal_strlit("webm");
    reveal_strlit(".webm");
    reveal_strlit("3gp");
    reveal_strlit(".3gp");
    reveal_strlit("m4v");
    reveal_strlit(".m4v");
    let di = documented_images();
    let dv = documented_videos();
    assert forall|k: int| 0 <= k < di.len() implies #[trigger] image_exts()[k] == seq!['.'] + di[k] by {
        assert(image_exts()[k] =~= seq!['.'] + di[k]);
    }
    assert forall|k: int| 0 <= k < dv.len() implies #[trigger] video_exts()[k] == seq!['.'] + dv[k] by {
        assert(video_exts()[k] =~= seq!['.'] + dv[k]);
    }
    match lowered_extension(p) {
        Some(x) => {
            lemma_dotted(di, image_exts(), x);
            lemma_dotted(dv, video_exts(), x);
            assert(lower_ext_of(p) == seq!['.'] + x);
            if di.contains(x) {
                let k = choose|k: int| 0 <= k < di.len() && di[k] == x;
                assert forall|j: int| 0 <= j < dv.len() implies dv[j] != x by {
                    assert(di[k] != dv[j]) by {
                        lemma_images_not_videos(k, j);
                    }
                }
            }
        },
        None => {
            assert(lower_ext_of(p) == Seq::<char>::empty());
            assert forall|k: int| 0 <= k < image_exts().len() implies image_exts()[k] != Seq::<char>::empty() by {
                assert(image_exts()[k].len() > 0);
            }
            assert forall|k: int| 0 <= k < video_exts().len() implies video_exts()[k] != Seq::<char>::empty() by {
                assert(video_exts()[k].len() > 0);
            }
        },
    }
}

/// The containers the in-process parser reads (`mp4`, `mov`, `m4v`, `3gp`),
/// lower case, without the dot.
pub open spec fn documented_iso_bmff() -> Seq<Seq<char>> {
    seq!["mp4"@, "mov"@, "m4v"@, "3gp"@]
}

/// The containers only `ffprobe` reads (`avi`, `mkv`, `wmv`, `flv`,
/// `webm`), lower case, without the dot.
pub open spec fn documented_ffprobe_only() -> Seq<Seq<char>> {
    seq!["avi"@, "mkv"@, "wmv"@, "flv"@, "webm"@]
}

/// A dotted extension goes to the in-process parser exactly when it is one
/// of the ISO-BMFF containers, and to `ffprobe` exactly when it is one of
/// the others.
pub proof fn readers_follow_documented_containers(x: Seq<char>)
    ensures
        mp4parse_exts().contains(seq!['.'] + x) <==> documented_iso_bmff().contains(x),
        ffprobe_exts().contains(seq!['.'] + x) <==> documented_ffprobe_only().contains(x),
{
    reveal_strlit("mp4");
    reveal_strlit(".mp4");
    reveal_strlit("mov");
    reveal_strlit(".mov");
    reveal_strlit("m4v");
    reveal_strlit(".m4v");
    reveal_strlit("3gp");
    reveal_strlit(".3gp");
    reveal_strlit("avi");
    reveal_strlit(".avi");
    reveal_strlit("mkv");
    reveal_strlit(".mkv");
    reveal_strlit("wmv");
    reveal_strlit(".wmv");
    reveal_strlit("flv");
    reveal_strlit(".flv");
    reveal_strlit("webm");
    reveal_strlit(".webm");
    let a = documented_iso_bmff();
    let b = documented_ffprobe_only();
    assert forall|k: int| 0 <= k < a.len() implies #[trigger] mp4parse_exts()[k] == seq!['.'] + a[k] by {
        assert(mp4parse_exts()[k] =~= seq!['.'] + a[k]);
    }
    assert forall|k: int| 0 <= k < b.len() implies #[trigger] ffprobe_exts()[k] == seq!['.'] + b[k] by {
        assert(ffprobe_exts()[k] =~= seq!['.'] + b[k]);
    }
    lemma_dotted(a, mp4parse_exts(), x);
    lemma_dotted(b, ffprobe_exts(), x);
}

} // verus!
