//! Buckets dated files into per-day groups, sorted oldest first.

use vstd::prelude::*;
use vstd::hash_map::StringHashMap;
use crate::types::{CivilDateTime, DateGroup, LocalDateTime, MediaMeta, MediaType};
use crate::date_format::{date_key_of, display_of, folder_of, key_midnight};
use crate::clock::{naive_date_parsed, ymd_format, is_canonical_ymd};

verus! {

/// The day a file belongs to.
pub open spec fn key_of(m: MediaMeta) -> Seq<char> {
    date_key_of(m.created_date)
}

/// The files of `files` whose day key is `k`, in input order.
pub open spec fn files_of_day(files: Seq<MediaMeta>, k: Seq<char>) -> Seq<MediaMeta> {
    files.filter(|m: MediaMeta| key_of(m) == k)
}

/// How many files of the given kind `s` holds.
pub open spec fn count_kind(s: Seq<MediaMeta>, t: MediaType) -> nat
    decreases s.len(),
{
    if s.len() == 0 {
        0
    } else {
        count_kind(s.drop_last(), t) + if s.last().file.media_type == t { 1nat } else { 0nat }
    }
}

/// Day keys in first-appearance order, with the files of each day.
pub open spec fn buckets_ok(files: Seq<MediaMeta>, keys: Seq<Seq<char>>, buckets: Seq<Seq<MediaMeta>>) -> bool {
    &&& keys.len() == buckets.len()
    &&& forall|j: int| 0 <= j < keys.len() ==> #[trigger] buckets[j] == files_of_day(files, keys[j])
    &&& forall|i: int, j: int| 0 <= i < keys.len() && 0 <= j < keys.len() && i != j ==> keys[i] != keys[j]
    &&& forall|i: int| 0 <= i < files.len() ==> exists|j: int| 0 <= j < keys.len() && #[trigger] keys[j] == key_of(#[trigger] files[i])
    &&& forall|j: int| 0 <= j < keys.len() ==> #[trigger] buckets[j].len() > 0
}

/// The text views of a list of strings.
pub open spec fn key_texts(v: Seq<String>) -> Seq<Seq<char>> {
    v.map_values(|s: String| s@)
}

/// The views of a list of file lists.
pub open spec fn bucket_views(v: Seq<Vec<MediaMeta>>) -> Seq<Seq<MediaMeta>> {
    v.map_values(|b: Vec<MediaMeta>| b@)
}

/// Splits files into day buckets, keyed by `date_key`, in order of first
/// appearance; each bucket keeps input order.
pub fn bucket_by_day(files: Vec<MediaMeta>) -> (r: (Vec<String>, Vec<Vec<MediaMeta>>))
    ensures
        buckets_ok(files@, key_texts(r.0@), bucket_views(r.1@)),
{
    broadcast use vstd::seq_lib::group_seq_properties;
    let ghost all = files@;
    let mut rest = files;
    let mut reversed: Vec<MediaMeta> = Vec::new();
    while rest.len() > 0
        invariant
            all == rest@ + reversed@.reverse(),
        decreases rest.len(),
    {
        let x = rest.pop().unwrap();
        let ghost before = reversed@;
        reversed.push(x);
        proof {
            assert(reversed@.reverse() =~= seq![x] + before.reverse());
            assert(all =~= rest@ + reversed@.reverse());
        }
    }
    let mut keys: Vec<String> = Vec::new();
    let mut buckets: Vec<Vec<MediaMeta>> = Vec::new();
    let mut index: StringHashMap<usize> = StringHashMap::new();
    let ghost mut seen: Seq<MediaMeta> = Seq::empty();
    proof {
        assert(all =~= seen + reversed@.reverse());
        assert(key_texts(keys@) =~= Seq::<Seq<char>>::empty());
        assert(bucket_views(buckets@) =~= Seq::<Seq<MediaMeta>>::empty());
    }
    while reversed.len() > 0
        invariant
            all == seen + reversed@.reverse(),
            buckets_ok(seen, key_texts(keys@), bucket_views(buckets@)),
            forall|k: Seq<char>| #[trigger] index@.contains_key(k) <==> key_texts(keys@).contains(k),
            forall|j: int| 0 <= j < keys@.len() ==> #[trigger] index@[key_texts(keys@)[j]] == j,
        decreases reversed.len(),
    {
        let f = reversed.pop().unwrap();
        let ghost rev_before = reversed@.push(f);
        let ghost seen_before = seen;
        let ghost kv_before = key_texts(keys@);
        let ghost bv_before = bucket_views(buckets@);
        proof {
            seen = seen.push(f);
            assert(rev_before.reverse() =~= seq![f] + reversed@.reverse());
            assert(all =~= seen + reversed@.reverse());
        }
        let k = crate::date_format::date_key(&f.created_date);
        let found = match index.get(k.as_str()) {
            Some(j) => Some(*j),
            None => None,
        };
        match found {
            Some(j) => {
                proof {
                    assert(kv_before.contains(k@));
                    let jj = choose|jj: int| 0 <= jj < kv_before.len() && kv_before[jj] == k@;
                    assert(index@[kv_before[jj]] == jj);
                    assert(j == jj);
                }
                buckets[j].push(f);
                proof {
                    assert(key_texts(keys@) == kv_before);
                    assert forall|i: int| 0 <= i < keys@.len() implies #[trigger] bucket_views(buckets@)[i]
                        == files_of_day(seen, key_texts(keys@)[i]) by {
                        seen_before.lemma_filter_push(f, |m: MediaMeta| key_of(m) == kv_before[i]);
                        if i == j {
                            assert(bucket_views(buckets@)[i] =~= bv_before[i].push(f));
                        } else {
                            assert(bucket_views(buckets@)[i] == bv_before[i]);
                        }
                    }
                    assert forall|i: int| 0 <= i < seen.len() implies exists|jj: int| 0 <= jj < keys@.len()
                        && #[trigger] key_texts(keys@)[jj] == key_of(#[trigger] seen[i]) by {
                        if i < seen_before.len() {
                            assert(seen[i] == seen_before[i]);
                        } else {
                            assert(key_texts(keys@)[j as int] == key_of(seen[i]));
                        }
                    }
                    assert forall|i: int| 0 <= i < keys@.len() implies #[trigger] bucket_views(buckets@)[i].len() > 0 by {
                        if i != j {
                            assert(bucket_views(buckets@)[i] == bv_before[i]);
                        }
                    }
                }
            },
            None => {
                let n = keys.len();
                let k2 = k.clone();
                index.insert(k2, n);
                keys.push(k);
                let mut b: Vec<MediaMeta> = Vec::new();
                b.push(f);
                buckets.push(b);
                proof {
                    assert(!kv_before.contains(k@));
                    assert(key_texts(keys@) =~= kv_before.push(k@));
                    assert(bucket_views(buckets@) =~= bv_before.push(seq![f]));
                    assert forall|i: int| 0 <= i < keys@.len() implies #[trigger] bucket_views(buckets@)[i]
                        == files_of_day(seen, key_texts(keys@)[i]) by {
                        seen_before.lemma_filter_push(f, |m: MediaMeta| key_of(m) == key_texts(keys@)[i]);
                        if i == n {
                            assert forall|q: int| 0 <= q < seen_before.len() implies key_of(#[trigger] seen_before[q]) != k@ by {
                                let jj = choose|jj: int| 0 <= jj < kv_before.len() && #[trigger] kv_before[jj] == key_of(seen_before[q]);
                                assert(kv_before.contains(key_of(seen_before[q])));
                            }
                            seen_before.lemma_all_neg_filter_empty(|m: MediaMeta| key_of(m) == k@);
                            assert(files_of_day(seen_before, k@) =~= Seq::<MediaMeta>::empty());
                            assert(bucket_views(buckets@)[i] =~= seq![f]);
                        } else {
                            assert(key_of(f) != kv_before[i]);
                        }
                    }
                    assert forall|i: int| 0 <= i < seen.len() implies exists|jj: int| 0 <= jj < keys@.len()
                        && #[trigger] key_texts(keys@)[jj] == key_of(#[trigger] seen[i]) by {
                        if i < seen_before.len() {
                            assert(seen[i] == seen_before[i]);
                            let jj = choose|jj: int| 0 <= jj < kv_before.len() && #[trigger] kv_before[jj] == key_of(seen_before[i]);
                            assert(key_texts(keys@)[jj] == kv_before[jj]);
                        } else {
                            assert(key_texts(keys@)[n as int] == key_of(seen[i]));
                        }
                    }
                    assert forall|kk: Seq<char>| #[trigger] index@.contains_key(kk) <==> key_texts(keys@).contains(kk) by {
                        if kk == k@ {
                            assert(key_texts(keys@)[n as int] == kk);
                        } else if key_texts(keys@).contains(kk) {
                            let jj = choose|jj: int| 0 <= jj < key_texts(keys@).len() && key_texts(keys@)[jj] == kk;
                            assert(kv_before[jj] == kk);
                        } else if kv_before.contains(kk) {
                            let jj = choose|jj: int| 0 <= jj < kv_before.len() && kv_before[jj] == kk;
                            assert(key_texts(keys@)[jj] == kk);
                        }
                    }
                    assert forall|j: int| 0 <= j < keys@.len() implies #[trigger] index@[key_texts(keys@)[j]] == j by {
                        if j < n {
                            assert(key_texts(keys@)[j] == kv_before[j]);
                            assert(kv_before[j] != k@) by {
                                assert(kv_before.contains(kv_before[j]));
                            }
                        }
                    }
                }
            },
        }
    }
    proof {
        assert(all =~= seen);
    }
    (keys, buckets)
}

/// Indices `0..n` ordered by `ts`, equal values keeping index order.
pub open spec fn is_sorted_order(ts: Seq<i64>, order: Seq<usize>) -> bool {
    &&& order.len() == ts.len()
    &&& order.no_duplicates()
    &&& forall|i: int| 0 <= i < order.len() ==> #[trigger] order[i] < ts.len()
    &&& forall|q: usize| q < ts.len() ==> #[trigger] order.contains(q)
    &&& forall|i: int, j: int| 0 <= i < j < order.len() ==> ts[#[trigger] order[i] as int] <= ts[#[trigger] order[j] as int]
}

/// A stable insertion sort of the indices of `ts` by value.
fn sorted_order(ts: &Vec<i64>) -> (order: Vec<usize>)
    ensures
        is_sorted_order(ts@, order@),
{
    let n = ts.len();
    let mut order: Vec<usize> = Vec::new();
    let mut k: usize = 0;
    while k < n
        invariant
            k <= n,
            n == ts@.len(),
            order@.len() == k,
            order@.no_duplicates(),
            forall|i: int| 0 <= i < order@.len() ==> #[trigger] order@[i] < k,
            forall|q: usize| q < k ==> #[trigger] order@.contains(q),
            forall|i: int, j: int| 0 <= i < j < order@.len() ==> ts@[#[trigger] order@[i] as int] <= ts@[#[trigger] order@[j] as int],
        decreases n - k,
    {
        let tk = ts[k];
        let mut p: usize = 0;
        while p < order.len() && ts[order[p]] <= tk
            invariant
                p <= order@.len(),
                n == ts@.len(),
                forall|i: int| 0 <= i < order@.len() ==> #[trigger] order@[i] < k,
                k < n,
                tk == ts@[k as int],
                forall|i: int| 0 <= i < p ==> ts@[#[trigger] order@[i] as int] <= tk,
            decreases order@.len() - p,
        {
            p = p + 1;
        }
        let ghost old_order = order@;
        order.insert(p, k);
        proof {
            old_order.insert_ensures(p as int, k);
            assert(order@ == old_order.insert(p as int, k));
            if p < old_order.len() {
                assert(ts@[old_order[p as int] as int] > tk);
            }
            assert forall|i: int, j: int| 0 <= i < j < order@.len() implies ts@[#[trigger] order@[i] as int]
                <= ts@[#[trigger] order@[j] as int] by {
                if j < p {
                } else if j == p {
                    assert(order@[i] == old_order[i]);
                } else if i < p {
                    assert(order@[j] == old_order[j - 1]);
                    assert(order@[i] == old_order[i]);
                    if p < old_order.len() {
                        assert(ts@[old_order[p as int] as int] <= ts@[old_order[j - 1] as int] || j - 1 == p);
                    }
                } else if i == p {
                    assert(order@[j] == old_order[j - 1]);
                    assert(ts@[old_order[p as int] as int] <= ts@[old_order[j - 1] as int] || j - 1 == p);
                } else {
                    assert(order@[j] == old_order[j - 1]);
                    assert(order@[i] == old_order[i - 1]);
                }
            }
            assert forall|i: int, j: int| 0 <= i < order@.len() && 0 <= j < order@.len() && i != j implies order@[i]
                != order@[j] by {
                if i == p as int {
                    if j < p { assert(order@[j] == old_order[j]); } else { assert(order@[j] == old_order[j - 1]); }
                } else if j == p as int {
                    if i < p { assert(order@[i] == old_order[i]); } else { assert(order@[i] == old_order[i - 1]); }
                } else {
                    let oi = if i < p { i } else { i - 1 };
                    let oj = if j < p { j } else { j - 1 };
                    assert(order@[i] == old_order[oi]);
                    assert(order@[j] == old_order[oj]);
                }
            }
            assert forall|i: int| 0 <= i < order@.len() implies #[trigger] order@[i] < k + 1 by {
                if i < p { assert(order@[i] == old_order[i]); } else if i > p { assert(order@[i] == old_order[i - 1]); }
            }
            assert forall|q: usize| q < k + 1 implies #[trigger] order@.contains(q) by {
                if q == k {
                    assert(order@[p as int] == k);
                } else {
                    assert(old_order.contains(q));
                    let i = choose|i: int| 0 <= i < old_order.len() && old_order[i] == q;
                    if i < p { assert(order@[i] == old_order[i]); } else { assert(order@[i + 1] == old_order[i]); }
                }
            }
        }
        k = k + 1;
    }
    order
}

pub proof fn lemma_count_kind_le(s: Seq<MediaMeta>, t: MediaType)
    ensures
        count_kind(s, t) <= s.len(),
    decreases s.len(),
{
    if s.len() > 0 {
        lemma_count_kind_le(s.drop_last(), t);
    }
}

/// How many images and videos a list of files holds.
pub fn count_kinds(files: &Vec<MediaMeta>) -> (r: (usize, usize))
    ensures
        r.0 == count_kind(files@, MediaType::Image),
        r.1 == count_kind(files@, MediaType::Video),
{
    let mut images: usize = 0;
    let mut videos: usize = 0;
    let mut k: usize = 0;
    while k < files.len()
        invariant
            k <= files@.len(),
            images == count_kind(files@.take(k as int), MediaType::Image),
            videos == count_kind(files@.take(k as int), MediaType::Video),
        decreases files@.len() - k,
    {
        proof {
            assert(files@.take(k as int + 1).drop_last() =~= files@.take(k as int));
            lemma_count_kind_le(files@.take(k as int), MediaType::Image);
            lemma_count_kind_le(files@.take(k as int), MediaType::Video);
        }
        match files[k].file.media_type {
            MediaType::Image => {
                images = images + 1;
            },
            MediaType::Video => {
                videos = videos + 1;
            },
        }
        k = k + 1;
    }
    proof {
        assert(files@.take(files@.len() as int) =~= files@);
    }
    (images, videos)
}

/// Day groups, oldest first, with the image and video totals.
#[derive(Debug)]
pub struct GroupResult {
    pub groups: Vec<DateGroup>,
    pub total_images: usize,
    pub total_videos: usize,
}

/// One day group as `group_by_date` builds it from `files`.
pub open spec fn group_ok(files: Seq<MediaMeta>, g: DateGroup) -> bool {
    &&& g.files@ == files_of_day(files, g.date_key@)
    &&& g.files@.len() > 0
    &&& g.image_count == count_kind(g.files@, MediaType::Image)
    &&& g.video_count == count_kind(g.files@, MediaType::Video)
    &&& g.date.wf()
    &&& naive_date_parsed(g.date_key@, ymd_format()) matches Some((y, m, d))
        && g.date.local == CivilDateTime::midnight(y, m, d)
    &&& is_canonical_ymd(g.date_key@) && key_midnight(g.date_key@).valid() ==> g.date.local
        == key_midnight(g.date_key@)
    &&& g.folder_path@ == folder_of(g.date)
    &&& g.display_name@ == display_of(g.date)
}

/// What `group_by_date` promises of its result.
pub open spec fn grouping_ok(files: Seq<MediaMeta>, r: GroupResult) -> bool {
    let gs = r.groups@;
    &&& forall|i: int| 0 <= i < gs.len() ==> group_ok(files, #[trigger] gs[i])
    &&& forall|i: int, j: int| 0 <= i < gs.len() && 0 <= j < gs.len() && i != j ==> gs[i].date_key@ != gs[j].date_key@
    &&& forall|q: int| 0 <= q < files.len() ==> exists|i: int| 0 <= i < gs.len() && #[trigger] gs[i].date_key@ == key_of(#[trigger] files[q])
    &&& forall|i: int, j: int| 0 <= i < j < gs.len() ==> (#[trigger] gs[i]).date.timestamp <= (#[trigger] gs[j]).date.timestamp
    &&& r.total_images == count_kind(files, MediaType::Image)
    &&& r.total_videos == count_kind(files, MediaType::Video)
}

/// `g` is the group of day `key` with files `files`, dated `date`.
pub open spec fn group_from(g: DateGroup, key: Seq<char>, files: Seq<MediaMeta>, date: LocalDateTime) -> bool {
    &&& g.date_key@ == key
    &&& g.files@ == files
    &&& g.date == date
    &&& g.image_count == count_kind(files, MediaType::Image)
    &&& g.video_count == count_kind(files, MediaType::Video)
    &&& g.folder_path@ == folder_of(date)
    &&& g.display_name@ == display_of(date)
}

/// The timestamps of a list of dates.
pub open spec fn timestamps(dates: Seq<LocalDateTime>) -> Seq<i64> {
    dates.map_values(|d: LocalDateTime| d.timestamp)
}

/// `gs` are the groups of the days `keys` (with files `buckets` and dates
/// `dates`), ordered by the dates' timestamps.
pub open spec fn assembled(
    keys: Seq<Seq<char>>,
    buckets: Seq<Seq<MediaMeta>>,
    dates: Seq<LocalDateTime>,
    gs: Seq<DateGroup>,
) -> bool {
    exists|order: Seq<usize>|
        is_sorted_order(timestamps(dates), order) && gs.len() == keys.len() && forall|t: int|
            0 <= t < gs.len() ==> group_from(
                #[trigger] gs[t],
                keys[order[t] as int],
                buckets[order[t] as int],
                dates[order[t] as int],
            )
}

/// Builds the group of each day from its key, its files and the local
/// date of its midnight, and orders the groups by that date, oldest first.
pub fn assemble_groups(keys: Vec<String>, buckets: Vec<Vec<MediaMeta>>, dates: Vec<LocalDateTime>) -> (r: Vec<
    DateGroup,
>)
    requires
        keys@.len() == buckets@.len(),
        keys@.len() == dates@.len(),
        forall|j: int| 0 <= j < dates@.len() ==> (#[trigger] dates@[j]).wf(),
    ensures
        assembled(key_texts(keys@), bucket_views(buckets@), dates@, r@),
{
    let ghost kv = key_texts(keys@);
    let ghost bv = bucket_views(buckets@);
    let mut buckets = buckets;
    let n = keys.len();
    let mut pre: Vec<Option<DateGroup>> = Vec::new();
    let mut ts: Vec<i64> = Vec::new();
    let mut j: usize = 0;
    while j < n
        invariant
            j <= n,
            n == keys@.len(),
            n == dates@.len(),
            kv == key_texts(keys@),
            buckets@.len() == n,
            bv.len() == n,
            forall|i: int| j <= i < n ==> #[trigger] buckets@[i]@ == bv[i],
            forall|i: int| 0 <= i < n ==> (#[trigger] dates@[i]).wf(),
            pre@.len() == j,
            ts@.len() == j,
            forall|i: int| 0 <= i < j ==> (#[trigger] pre@[i]) is Some && group_from(
                pre@[i].unwrap(),
                kv[i],
                bv[i],
                dates@[i],
            ) && ts@[i] == dates@[i].timestamp,
        decreases n - j,
    {
        let date = dates[j];
        let mut b: Vec<MediaMeta> = Vec::new();
        buckets.set_and_swap(j, &mut b);
        assert(b@ == bv[j as int]);
        let (ic, vc) = count_kinds(&b);
        let g = DateGroup {
            date_key: keys[j].clone(),
            folder_path: crate::date_format::format_for_folder(&date),
            display_name: crate::date_format::format_for_display(&date),
            date,
            files: b,
            image_count: ic,
            video_count: vc,
        };
        proof {
            assert(kv[j as int] == keys@[j as int]@);
        }
        ts.push(date.timestamp);
        pre.push(Some(g));
        j = j + 1;
    }
    proof {
        assert forall|i: int| 0 <= i < n implies #[trigger] ts@[i] == timestamps(dates@)[i] by {
            assert(pre@[i] is Some);
        }
        assert(ts@ =~= timestamps(dates@));
    }
    let order = sorted_order(&ts);
    let ghost pre0 = pre@;
    let mut groups: Vec<DateGroup> = Vec::new();
    let mut i: usize = 0;
    while i < n
        invariant
            i <= n,
            n == pre0.len(),
            is_sorted_order(ts@, order@),
            ts@.len() == n,
            pre@.len() == n,
            groups@.len() == i,
            forall|t: int| 0 <= t < n ==> (#[trigger] pre0[t]) is Some,
            forall|q: int| 0 <= q < n && !order@.take(i as int).contains(q as usize) ==> #[trigger] pre@[q] == pre0[q],
            forall|t: int| 0 <= t < i ==> #[trigger] groups@[t] == pre0[order@[t] as int].unwrap(),
        decreases n - i,
    {
        let idx = order[i];
        let mut slot: Option<DateGroup> = None;
        proof {
            assert(!order@.take(i as int).contains(idx)) by {
                if order@.take(i as int).contains(idx) {
                    let t = choose|t: int| 0 <= t < i && order@.take(i as int)[t] == idx;
                    assert(order@[t] == order@[i as int]);
                }
            }
        }
        pre.set_and_swap(idx, &mut slot);
        proof {
            assert(order@.take(i as int + 1) =~= order@.take(i as int).push(idx));
            assert forall|q: int| 0 <= q < n && !order@.take(i as int + 1).contains(q as usize) implies #[trigger] pre@[q]
                == pre0[q] by {
                assert(q != idx as int) by {
                    if q == idx as int {
                        assert(order@.take(i as int + 1)[i as int] == idx);
                    }
                }
                assert(!order@.take(i as int).contains(q as usize)) by {
                    if order@.take(i as int).contains(q as usize) {
                        let t = choose|t: int| 0 <= t < i && order@.take(i as int)[t] == q as usize;
                        assert(order@.take(i as int + 1)[t] == q as usize);
                    }
                }
            }
        }
        match slot {
            Some(g) => {
                groups.push(g);
            },
            None => {
                proof {
                    assert(pre0[idx as int] is Some);
                    assert(false);
                }
            },
        }
        i = i + 1;
    }
    proof {
        let gs = groups@;
        assert forall|t: int| 0 <= t < gs.len() implies group_from(
            #[trigger] gs[t],
            kv[order@[t] as int],
            bv[order@[t] as int],
            dates@[order@[t] as int],
        ) by {
            assert(order@[t] < n);
        }
    }
    groups
}

/// Buckets files into per-day groups sorted oldest first (by the
/// timestamp of local midnight of the day).
///
/// `None` when local midnight of one of the days does not exist or is
/// ambiguous in the machine's time zone.
pub fn group_by_date(files: Vec<MediaMeta>) -> (r: Option<GroupResult>)
    ensures
        r matches Some(g) ==> grouping_ok(files@, g),
        files@.len() == 0 ==> (r matches Some(g) && g.groups@.len() == 0 && g.total_images == 0
            && g.total_videos == 0),
        r is None ==> files@.len() > 0,
{
    let (total_images, total_videos) = count_kinds(&files);
    let ghost all = files@;
    let (keys, buckets) = bucket_by_day(files);
    let ghost kv = key_texts(keys@);
    let ghost bv = bucket_views(buckets@);
    let n = keys.len();
    proof {
        if all.len() == 0 && kv.len() > 0 {
            assert(bv[0] == files_of_day(all, kv[0]));
            assert(all.filter(|m: MediaMeta| key_of(m) == kv[0]) =~= Seq::<MediaMeta>::empty());
            assert(bv[0].len() > 0);
        }
    }
    let mut dates: Vec<LocalDateTime> = Vec::new();
    let mut j: usize = 0;
    while j < n
        invariant
            j <= n,
            n == keys@.len(),
            kv == key_texts(keys@),
            dates@.len() == j,
            n > 0 ==> all.len() > 0,
            all == files@,
            forall|i: int| 0 <= i < j ==> midnight_of_key(#[trigger] dates@[i], kv[i]),
        decreases n - j,
    {
        let date = match crate::date_format::parse_date_key(keys[j].as_str()) {
            Some(d) => d,
            None => {
                return None;
            },
        };
        proof {
            assert(kv[j as int] == keys@[j as int]@);
        }
        dates.push(date);
        j = j + 1;
    }
    let ghost dv = dates@;
    let groups = assemble_groups(keys, buckets, dates);
    let r = GroupResult { groups, total_images, total_videos };
    proof {
        let gs = r.groups@;
        let order = choose|order: Seq<usize>|
            is_sorted_order(timestamps(dv), order) && gs.len() == kv.len() && forall|t: int|
                0 <= t < gs.len() ==> group_from(
                    #[trigger] gs[t],
                    kv[order[t] as int],
                    bv[order[t] as int],
                    dv[order[t] as int],
                );
        assert forall|t: int| 0 <= t < gs.len() implies group_ok(all, #[trigger] gs[t]) by {
            let j = order[t] as int;
            assert(order[t] < n);
            assert(group_from(gs[t], kv[j], bv[j], dv[j]));
            assert(midnight_of_key(dv[j], kv[j]));
            assert(bv[j] == files_of_day(all, kv[j]));
        }
        assert forall|a: int, b: int| 0 <= a < gs.len() && 0 <= b < gs.len() && a != b implies gs[a].date_key@
            != gs[b].date_key@ by {
            assert(group_from(gs[a], kv[order[a] as int], bv[order[a] as int], dv[order[a] as int]));
            assert(group_from(gs[b], kv[order[b] as int], bv[order[b] as int], dv[order[b] as int]));
            assert(order[a] != order[b]);
        }
        assert forall|q: int| 0 <= q < all.len() implies exists|t: int| 0 <= t < gs.len() && #[trigger] gs[t].date_key@
            == key_of(#[trigger] all[q]) by {
            let jj = choose|jj: int| 0 <= jj < kv.len() && #[trigger] kv[jj] == key_of(all[q]);
            assert(order.contains(jj as usize));
            let t = choose|t: int| 0 <= t < order.len() && order[t] == jj as usize;
            assert(group_from(gs[t], kv[order[t] as int], bv[order[t] as int], dv[order[t] as int]));
            assert(gs[t].date_key@ == kv[jj]);
        }
        assert forall|a: int, b: int| 0 <= a < b < gs.len() implies (#[trigger] gs[a]).date.timestamp
            <= (#[trigger] gs[b]).date.timestamp by {
            assert(group_from(gs[a], kv[order[a] as int], bv[order[a] as int], dv[order[a] as int]));
            assert(group_from(gs[b], kv[order[b] as int], bv[order[b] as int], dv[order[b] as int]));
            assert(timestamps(dv)[order[a] as int] <= timestamps(dv)[order[b] as int]);
        }
    }
    Some(r)
}

/// `d` is what `parse_date_key` gave for `key`.
pub open spec fn midnight_of_key(d: LocalDateTime, key: Seq<char>) -> bool {
    &&& d.wf()
    &&& naive_date_parsed(key, ymd_format()) matches Some((y, m, dd)) && d.local == CivilDateTime::midnight(y, m, dd)
    &&& is_canonical_ymd(key) && key_midnight(key).valid() ==> d.local == key_midnight(key)
}

/// Every file lies in the group of its day, and (for years 0 to 9999) a
/// group's date is midnight of the day its files were taken.
pub proof fn group_holds_its_days_files(files: Seq<MediaMeta>, r: GroupResult, i: int, f: MediaMeta)
    requires
        grouping_ok(files, r),
        0 <= i < r.groups@.len(),
        r.groups@[i].files@.contains(f),
    ensures
        files.contains(f),
        key_of(f) == r.groups@[i].date_key@,
        f.created_date.wf() && 0 <= f.created_date.local.year <= 9999 ==> r.groups@[i].date.local
            == CivilDateTime::midnight(
            f.created_date.local.year,
            f.created_date.local.month,
            f.created_date.local.day,
        ),
{
    let g = r.groups@[i];
    assert(group_ok(files, g));
    let p = |m: MediaMeta| key_of(m) == g.date_key@;
    files.lemma_filter_contains_rev(p, f);
    assert(p(f));
    if f.created_date.wf() && 0 <= f.created_date.local.year <= 9999 {
        crate::date_format::date_key_spells_date(f.created_date);
    }
}

/// The count of kind `t` that a group records.
pub open spec fn group_count(g: DateGroup, t: MediaType) -> nat {
    match t {
        MediaType::Image => g.image_count as nat,
        MediaType::Video => g.video_count as nat,
    }
}

/// The sum of the counts of kind `t` over the groups.
pub open spec fn sum_group_counts(gs: Seq<DateGroup>, t: MediaType) -> nat
    decreases gs.len(),
{
    if gs.len() == 0 {
        0
    } else {
        sum_group_counts(gs.drop_last(), t) + group_count(gs.last(), t)
    }
}

/// The files of kind `t` in `files` on the days of the groups, day by day.
pub open spec fn day_sum(files: Seq<MediaMeta>, gs: Seq<DateGroup>, t: MediaType) -> nat
    decreases gs.len(),
{
    if gs.len() == 0 {
        0
    } else {
        day_sum(files, gs.drop_last(), t) + count_kind(files_of_day(files, gs.last().date_key@), t)
    }
}

/// How many of the groups have day key `k`.
pub open spec fn key_hits(gs: Seq<DateGroup>, k: Seq<char>) -> nat
    decreases gs.len(),
{
    if gs.len() == 0 {
        0
    } else {
        key_hits(gs.drop_last(), k) + if gs.last().date_key@ == k { 1nat } else { 0nat }
    }
}

proof fn lemma_day_sum_push(files: Seq<MediaMeta>, f: MediaMeta, gs: Seq<DateGroup>, t: MediaType)
    ensures
        day_sum(files.push(f), gs, t) == day_sum(files, gs, t) + if f.file.media_type == t {
            key_hits(gs, key_of(f))
        } else {
            0
        },
    decreases gs.len(),
{
    if gs.len() > 0 {
        lemma_day_sum_push(files, f, gs.drop_last(), t);
        let k = gs.last().date_key@;
        let p = |m: MediaMeta| key_of(m) == k;
        files.lemma_filter_push(f, p);
        if p(f) {
            assert(files.push(f).filter(p).drop_last() =~= files.filter(p));
        }
    }
}

proof fn lemma_key_hits(gs: Seq<DateGroup>, k: Seq<char>)
    requires
        forall|i: int, j: int| 0 <= i < gs.len() && 0 <= j < gs.len() && i != j ==> gs[i].date_key@ != gs[j].date_key@,
    ensures
        key_hits(gs, k) == if exists|i: int| 0 <= i < gs.len() && gs[i].date_key@ == k { 1nat } else { 0nat },
    decreases gs.len(),
{
    if gs.len() > 0 {
        let init = gs.drop_last();
        assert forall|i: int, j: int| 0 <= i < init.len() && 0 <= j < init.len() && i != j implies init[i].date_key@
            != init[j].date_key@ by {
            assert(init[i] == gs[i] && init[j] == gs[j]);
        }
        lemma_key_hits(init, k);
        if gs.last().date_key@ == k {
            if exists|i: int| 0 <= i < init.len() && init[i].date_key@ == k {
                let i = choose|i: int| 0 <= i < init.len() && init[i].date_key@ == k;
                assert(gs[i].date_key@ == gs[gs.len() - 1].date_key@);
            }
            assert(gs[gs.len() - 1].date_key@ == k);
        } else {
            if exists|i: int| 0 <= i < gs.len() && gs[i].date_key@ == k {
                let i = choose|i: int| 0 <= i < gs.len() && gs[i].date_key@ == k;
                assert(i < init.len());
                assert(init[i].date_key@ == k);
            }
            if exists|i: int| 0 <= i < init.len() && init[i].date_key@ == k {
                let i = choose|i: int| 0 <= i < init.len() && init[i].date_key@ == k;
                assert(gs[i].date_key@ == k);
            }
        }
    }
}

proof fn lemma_day_sum_covers(files: Seq<MediaMeta>, gs: Seq<DateGroup>, t: MediaType)
    requires
        forall|i: int, j: int| 0 <= i < gs.len() && 0 <= j < gs.len() && i != j ==> gs[i].date_key@ != gs[j].date_key@,
        forall|q: int| 0 <= q < files.len() ==> exists|i: int| 0 <= i < gs.len() && #[trigger] gs[i].date_key@ == key_of(#[trigger] files[q]),
    ensures
        day_sum(files, gs, t) == count_kind(files, t),
    decreases files.len(),
{
    if files.len() == 0 {
        lemma_day_sum_empty(gs, t);
        assert(files =~= Seq::<MediaMeta>::empty());
    } else {
        let init = files.drop_last();
        let f = files.last();
        assert forall|q: int| 0 <= q < init.len() implies exists|i: int| 0 <= i < gs.len() && #[trigger] gs[i].date_key@
            == key_of(#[trigger] init[q]) by {
            assert(init[q] == files[q]);
        }
        lemma_day_sum_covers(init, gs, t);
        assert(init.push(f) =~= files);
        lemma_day_sum_push(init, f, gs, t);
        lemma_key_hits(gs, key_of(f));
        assert(exists|i: int| 0 <= i < gs.len() && #[trigger] gs[i].date_key@ == key_of(files[files.len() - 1]));
        assert(key_hits(gs, key_of(f)) == 1);
        assert(files.drop_last() == init);
    }
}

proof fn lemma_day_sum_empty(gs: Seq<DateGroup>, t: MediaType)
    ensures
        day_sum(Seq::empty(), gs, t) == 0,
    decreases gs.len(),
{
    if gs.len() > 0 {
        lemma_day_sum_empty(gs.drop_last(), t);
        assert(Seq::<MediaMeta>::empty().filter(|m: MediaMeta| key_of(m) == gs.last().date_key@) =~= Seq::empty());
    }
}

proof fn lemma_sum_group_counts(files: Seq<MediaMeta>, gs: Seq<DateGroup>, t: MediaType)
    requires
        forall|i: int| 0 <= i < gs.len() ==> group_ok(files, #[trigger] gs[i]),
    ensures
        sum_group_counts(gs, t) == day_sum(files, gs, t),
    decreases gs.len(),
{
    if gs.len() > 0 {
        let init = gs.drop_last();
        assert forall|i: int| 0 <= i < init.len() implies group_ok(files, #[trigger] init[i]) by {
            assert(init[i] == gs[i]);
        }
        lemma_sum_group_counts(files, init, t);
        assert(group_ok(files, gs[gs.len() - 1]));
    }
}

/// The totals are the sums of the groups' own counts: every dated file is
/// counted in exactly one group.
pub proof fn group_counts_add_up(files: Seq<MediaMeta>, r: GroupResult)
    requires
        grouping_ok(files, r),
    ensures
        sum_group_counts(r.groups@, MediaType::Image) == r.total_images,
        sum_group_counts(r.groups@, MediaType::Video) == r.total_videos,
{
    lemma_sum_group_counts(files, r.groups@, MediaType::Image);
    lemma_sum_group_counts(files, r.groups@, MediaType::Video);
    lemma_day_sum_covers(files, r.groups@, MediaType::Image);
    lemma_day_sum_covers(files, r.groups@, MediaType::Video);
}

} // verus!
