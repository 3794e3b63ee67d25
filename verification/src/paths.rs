//! Path reading on `/`-separated text, following the component rules of
//! `std::path::Path` on Unix: repeated separators are ignored, `.` is
//! dropped except at the very start, and a trailing separator is ignored.

use vstd::prelude::*;


verus! {

/// Index of the first `/` at or after `i`, or the length.
pub open spec fn seg_end(p: Seq<char>, i: int) -> int
    decreases p.len() - i,
{
    if i >= p.len() || p[i] == '/' {
        i
    } else {
        seg_end(p, i + 1)
    }
}

pub open spec fn dot() -> Seq<char> {
    seq!['.']
}

pub open spec fn dot_dot() -> Seq<char> {
    seq!['.', '.']
}

pub open spec fn root() -> Seq<char> {
    seq!['/']
}

/// The non-empty, non-`.` segments of `p` starting at index `i`.
pub open spec fn normal_parts_from(p: Seq<char>, i: int) -> Seq<Seq<char>>
    decreases p.len() - i,
{
    if i < 0 || i >= p.len() {
        Seq::empty()
    } else {
        let j = seg_end(p, i);
        let seg = p.subrange(i, j);
        let rest = if i <= j < p.len() {
            normal_parts_from(p, j + 1)
        } else {
            Seq::empty()
        };
        if seg.len() == 0 || seg == dot() {
            rest
        } else {
            seq![seg] + rest
        }
    }
}

/// Whether `p` begins with a `.` component (`.` alone or `./...`).
pub open spec fn starts_with_cur_dir(p: Seq<char>) -> bool {
    p.len() >= 1 && p[0] == '.' && (p.len() == 1 || p[1] == '/')
}

/// The components of a path: `/` for the root, `.` for a leading current
/// directory, then every other segment.
pub open spec fn components(p: Seq<char>) -> Seq<Seq<char>> {
    let head: Seq<Seq<char>> = if p.len() >= 1 && p[0] == '/' {
        seq![root()]
    } else if starts_with_cur_dir(p) {
        seq![dot()]
    } else {
        Seq::empty()
    };
    head + normal_parts_from(p, 0)
}

/// `Path::file_name`: the last component when it is a normal one.
pub open spec fn file_name_of(p: Seq<char>) -> Option<Seq<char>> {
    let c = components(p);
    if c.len() == 0 {
        None
    } else {
        let last = c.last();
        if last == root() || last == dot() || last == dot_dot() {
            None
        } else {
            Some(last)
        }
    }
}

/// Index of the last `.` in `s` before position `to`, or `-1`.
pub open spec fn last_dot_before(s: Seq<char>, to: int) -> int
    decreases to,
{
    if to <= 0 {
        -1
    } else if s[to - 1] == '.' {
        to - 1
    } else {
        last_dot_before(s, to - 1)
    }
}

/// Index of the last `.` in `s`, or `-1`.
pub open spec fn last_dot(s: Seq<char>) -> int {
    last_dot_before(s, s.len() as int)
}

/// `Path::extension`: the text after the last `.` of the file name, unless
/// the only `.` opens the name.
pub open spec fn extension_of(p: Seq<char>) -> Option<Seq<char>> {
    match file_name_of(p) {
        None => None,
        Some(name) => {
            let i = last_dot(name);
            if i <= 0 {
                None
            } else {
                Some(name.subrange(i + 1, name.len() as int))
            }
        },
    }
}

/// `Path::starts_with`: whole components of `base` open `p`.
pub open spec fn path_starts_with(p: Seq<char>, base: Seq<char>) -> bool {
    components(base).is_prefix_of(components(p))
}

pub proof fn lemma_seg_end_bounds(p: Seq<char>, i: int)
    requires
        0 <= i <= p.len(),
    ensures
        i <= seg_end(p, i) <= p.len(),
        seg_end(p, i) < p.len() ==> p[seg_end(p, i)] == '/',
        forall|k: int| i <= k < seg_end(p, i) ==> p[k] != '/',
    decreases p.len() - i,
{
    if i < p.len() && p[i] != '/' {
        lemma_seg_end_bounds(p, i + 1);
    }
}

pub proof fn lemma_last_dot_before(s: Seq<char>, to: int)
    requires
        to <= s.len(),
    ensures
        -1 <= last_dot_before(s, to) < to || (to <= 0 && last_dot_before(s, to) == -1),
        last_dot_before(s, to) >= 0 ==> s[last_dot_before(s, to)] == '.',
        forall|k: int| last_dot_before(s, to) < k < to && k >= 0 ==> s[k] != '.',
    decreases to,
{
    if to > 0 && s[to - 1] != '.' {
        lemma_last_dot_before(s, to - 1);
    }
}

/// The components of `p`.
pub fn components_exec(p: &[char]) -> (r: Vec<Vec<char>>)
    ensures
        r@.map_values(|v: Vec<char>| v@) == components(p@),
{
    let n = p.len();
    let mut out: Vec<Vec<char>> = Vec::new();
    if n >= 1 && p[0] == '/' {
        let mut r: Vec<char> = Vec::new();
        r.push('/');
        out.push(r);
        proof {
            assert(r@ =~= root());
            assert(out@.map_values(|v: Vec<char>| v@) =~= seq![root()]);
        }
    } else if n >= 1 && p[0] == '.' && (n == 1 || p[1] == '/') {
        let mut r: Vec<char> = Vec::new();
        r.push('.');
        out.push(r);
        proof {
            assert(r@ =~= dot());
            assert(out@.map_values(|v: Vec<char>| v@) =~= seq![dot()]);
        }
    } else {
        proof {
            assert(out@.map_values(|v: Vec<char>| v@) =~= Seq::<Seq<char>>::empty());
        }
    }
    let mut i: usize = 0;
    while i < n
        invariant
            n == p@.len(),
            i <= n,
            out@.map_values(|v: Vec<char>| v@) + normal_parts_from(p@, i as int) == components(p@),
        decreases n - i,
    {
        let mut j: usize = i;
        while j < n && p[j] != '/'
            invariant
                i <= j <= n,
                n == p@.len(),
                seg_end(p@, j as int) == seg_end(p@, i as int),
            decreases n - j,
        {
            j = j + 1;
        }
        let ghost old_view = out@.map_values(|v: Vec<char>| v@);
        proof {
            lemma_seg_end_bounds(p@, i as int);
        }
        let mut seg: Vec<char> = Vec::new();
        let mut k: usize = i;
        while k < j
            invariant
                i <= k <= j <= n,
                n == p@.len(),
                seg@ == p@.subrange(i as int, k as int),
            decreases j - k,
        {
            seg.push(p[k]);
            k = k + 1;
            proof {
                assert(seg@ =~= p@.subrange(i as int, k as int));
            }
        }
        let is_dot = seg.len() == 1 && seg[0] == '.';
        proof {
            assert(is_dot == (seg@ == dot())) by {
                if seg@ == dot() {
                    assert(seg@.len() == 1);
                }
                if is_dot {
                    assert(seg@ =~= dot());
                }
            }
        }
        if seg.len() != 0 && !is_dot {
            out.push(seg);
            proof {
                assert(out@.map_values(|v: Vec<char>| v@) =~= old_view.push(p@.subrange(i as int, j as int)));
                let rest = if j < n { normal_parts_from(p@, j as int + 1) } else { Seq::<Seq<char>>::empty() };
                assert(old_view.push(p@.subrange(i as int, j as int)) + rest
                    =~= old_view + (seq![p@.subrange(i as int, j as int)] + rest));
            }
        }
        if j == n {
            i = n;
        } else {
            i = j + 1;
        }
    }
    proof {
        assert(normal_parts_from(p@, i as int) == Seq::<Seq<char>>::empty());
        assert(out@.map_values(|v: Vec<char>| v@) =~= out@.map_values(|v: Vec<char>| v@) + Seq::<Seq<char>>::empty());
    }
    out
}

/// The file name of a path (`Path::file_name`).
pub fn file_name(p: &[char]) -> (r: Option<Vec<char>>)
    ensures
        match r {
            Some(v) => file_name_of(p@) == Some(v@),
            None => file_name_of(p@) is None,
        },
{
    let comps = components_exec(p);
    let ghost cv = comps@.map_values(|v: Vec<char>| v@);
    if comps.len() == 0 {
        return None;
    }
    let last_idx = comps.len() - 1;
    let last = &comps[last_idx];
    proof {
        assert(cv.last() == last@);
    }
    let is_root = last.len() == 1 && last[0] == '/';
    let is_dot = last.len() == 1 && last[0] == '.';
    let is_dot_dot = last.len() == 2 && last[0] == '.' && last[1] == '.';
    proof {
        if last@ == root() { assert(last@.len() == 1); }
        if last@ == dot() { assert(last@.len() == 1); }
        if last@ == dot_dot() { assert(last@.len() == 2); }
        if is_root { assert(last@ =~= root()); }
        if is_dot { assert(last@ =~= dot()); }
        if is_dot_dot { assert(last@ =~= dot_dot()); }
    }
    if is_root || is_dot || is_dot_dot {
        None
    } else {
        let mut v: Vec<char> = Vec::new();
        crate::text::push_all(&mut v, last.as_slice());
        proof {
            assert(v@ =~= last@);
        }
        Some(v)
    }
}

/// Index of the last `.` in `s`, if any.
pub fn last_dot_index(s: &[char]) -> (r: Option<usize>)
    ensures
        match r {
            Some(i) => last_dot(s@) == i as int && i < s@.len(),
            None => last_dot(s@) == -1,
        },
{
    proof {
        lemma_last_dot_before(s@, s@.len() as int);
    }
    let mut k: usize = s.len();
    while k > 0 && s[k - 1] != '.'
        invariant
            k <= s.len(),
            last_dot_before(s@, k as int) == last_dot(s@),
        decreases k,
    {
        k = k - 1;
    }
    if k == 0 {
        None
    } else {
        Some(k - 1)
    }
}

/// The extension of a path (`Path::extension`), without the dot.
pub fn extension(p: &[char]) -> (r: Option<Vec<char>>)
    ensures
        match r {
            Some(v) => extension_of(p@) == Some(v@),
            None => extension_of(p@) is None,
        },
{
    match file_name(p) {
        None => None,
        Some(name) => {
            match last_dot_index(&name) {
                None => None,
                Some(i) => {
                    if i == 0 {
                        None
                    } else {
                        let mut v: Vec<char> = Vec::new();
                        let mut k: usize = i + 1;
                        while k < name.len()
                            invariant
                                i + 1 <= k <= name.len(),
                                v@ == name@.subrange(i + 1, k as int),
                            decreases name.len() - k,
                        {
                            v.push(name[k]);
                            k = k + 1;
                            proof {
                                assert(v@ =~= name@.subrange(i + 1, k as int));
                            }
                        }
                        Some(v)
                    }
                },
            }
        },
    }
}

/// Whether the component list `a` opens `b`.
fn comps_prefix(a: &Vec<Vec<char>>, b: &Vec<Vec<char>>) -> (r: bool)
    ensures
        r == a@.map_values(|v: Vec<char>| v@).is_prefix_of(b@.map_values(|v: Vec<char>| v@)),
{
    let ghost av = a@.map_values(|v: Vec<char>| v@);
    let ghost bv = b@.map_values(|v: Vec<char>| v@);
    if a.len() > b.len() {
        return false;
    }
    let mut k: usize = 0;
    while k < a.len()
        invariant
            a.len() <= b.len(),
            k <= a.len(),
            av == a@.map_values(|v: Vec<char>| v@),
            bv == b@.map_values(|v: Vec<char>| v@),
            forall|j: int| 0 <= j < k ==> av[j] == bv[j],
        decreases a.len() - k,
    {
        if !crate::text::chars_eq(a[k].as_slice(), b[k].as_slice()) {
            proof {
                assert(av[k as int] != bv[k as int]);
            }
            return false;
        }
        k = k + 1;
    }
    proof {
        assert(av =~= bv.take(av.len() as int));
    }
    true
}

/// Whether the path `p` lies under `base`, comparing whole components
/// (`Path::starts_with`).
pub fn starts_with(p: &[char], base: &[char]) -> (r: bool)
    ensures
        r == path_starts_with(p@, base@),
{
    let a = components_exec(base);
    let b = components_exec(p);
    comps_prefix(&a, &b)
}

/// A text that stands for a sequence of components: each one followed by
/// `/`.
pub open spec fn comps_key(cs: Seq<Seq<char>>) -> Seq<char>
    decreases cs.len(),
{
    if cs.len() == 0 {
        Seq::empty()
    } else {
        comps_key(cs.drop_last()) + cs.last() + seq!['/']
    }
}

/// The key of `Path::parent`: none for an empty path or the root, else the
/// components without the last one.
pub open spec fn parent_key_of(p: Seq<char>) -> Option<Seq<char>> {
    let c = components(p);
    if c.len() == 0 || c.last() == root() {
        None
    } else {
        Some(comps_key(c.drop_last()))
    }
}

/// The key of the parent directory of `p`, if it has one.
pub fn parent_key(p: &[char]) -> (r: Option<String>)
    ensures
        match r {
            Some(k) => parent_key_of(p@) == Some(k@),
            None => parent_key_of(p@) is None,
        },
{
    let comps = components_exec(p);
    let ghost cv = comps@.map_values(|v: Vec<char>| v@);
    if comps.len() == 0 {
        return None;
    }
    let last_idx = comps.len() - 1;
    let last = &comps[last_idx];
    proof {
        assert(cv.last() == last@);
    }
    let is_root = last.len() == 1 && last[0] == '/';
    proof {
        if last@ == root() { assert(last@.len() == 1); }
        if is_root { assert(last@ =~= root()); }
    }
    if is_root {
        return None;
    }
    let mut out: Vec<char> = Vec::new();
    let mut i: usize = 0;
    while i < last_idx
        invariant
            i <= last_idx,
            last_idx + 1 == comps@.len(),
            cv == comps@.map_values(|v: Vec<char>| v@),
            out@ == comps_key(cv.take(i as int)),
        decreases last_idx - i,
    {
        crate::text::push_all(&mut out, comps[i].as_slice());
        out.push('/');
        proof {
            let t = cv.take(i + 1);
            assert(t.drop_last() =~= cv.take(i as int));
            assert(t.last() == comps@[i as int]@);
        }
        i = i + 1;
    }
    proof {
        assert(cv.take(last_idx as int) =~= cv.drop_last());
    }
    Some(crate::text::string_of(&out))
}

/// A component: not empty, and free of `/` unless it is the root, which
/// can only come first.
pub open spec fn comps_ok(cs: Seq<Seq<char>>) -> bool {
    forall|i: int| 0 <= i < cs.len() ==> {
        &&& (#[trigger] cs[i]).len() > 0
        &&& (cs[i] == root() && i == 0) || forall|k: int| 0 <= k < cs[i].len() ==> cs[i][k] != '/'
    }
}

proof fn lemma_normal_parts_ok(p: Seq<char>, i: int)
    ensures
        forall|t: int| 0 <= t < normal_parts_from(p, i).len() ==> (#[trigger] normal_parts_from(p, i)[t]).len() > 0
            && forall|k: int| 0 <= k < normal_parts_from(p, i)[t].len() ==> normal_parts_from(p, i)[t][k] != '/',
    decreases p.len() - i,
{
    if 0 <= i < p.len() {
        let j = seg_end(p, i);
        lemma_seg_end_bounds(p, i);
        let seg = p.subrange(i, j);
        if i <= j < p.len() {
            lemma_normal_parts_ok(p, j + 1);
        }
        let rest = if i <= j < p.len() { normal_parts_from(p, j + 1) } else { Seq::<Seq<char>>::empty() };
        let r = normal_parts_from(p, i);
        if !(seg.len() == 0 || seg == dot()) {
            assert(r == seq![seg] + rest);
            assert forall|t: int| 0 <= t < r.len() implies (#[trigger] r[t]).len() > 0 && forall|k: int|
                0 <= k < r[t].len() ==> r[t][k] != '/' by {
                if t == 0 {
                    assert(r[0] == seg);
                    assert forall|k: int| 0 <= k < seg.len() implies seg[k] != '/' by {
                        assert(seg[k] == p[i + k]);
                    }
                } else {
                    assert(r[t] == rest[t - 1]);
                }
            }
        }
    }
}

/// The components of a path are well formed.
pub proof fn lemma_components_ok(p: Seq<char>)
    ensures
        comps_ok(components(p)),
{
    lemma_normal_parts_ok(p, 0);
    let n = normal_parts_from(p, 0);
    let c = components(p);
    let head: Seq<Seq<char>> = if p.len() >= 1 && p[0] == '/' {
        seq![root()]
    } else if starts_with_cur_dir(p) {
        seq![dot()]
    } else {
        Seq::empty()
    };
    assert(c == head + n);
    assert forall|i: int| 0 <= i < c.len() implies {
        &&& (#[trigger] c[i]).len() > 0
        &&& (c[i] == root() && i == 0) || forall|k: int| 0 <= k < c[i].len() ==> c[i][k] != '/'
    } by {
        if i < head.len() {
            assert(c[i] == head[i]);
            if head[0] == dot() {
                assert forall|k: int| 0 <= k < c[i].len() implies c[i][k] != '/' by {
                    assert(c[i] =~= seq!['.']);
                }
            }
        } else {
            assert(c[i] == n[i - head.len()]);
        }
    }
}

proof fn lemma_comps_key_shape(cs: Seq<Seq<char>>)
    ensures
        cs.len() == 0 <==> comps_key(cs).len() == 0,
        cs.len() > 0 ==> comps_key(cs).last() == '/',
    decreases cs.len(),
{
    if cs.len() > 0 {
        lemma_comps_key_shape(cs.drop_last());
    }
}

proof fn lemma_comps_ok_init(cs: Seq<Seq<char>>)
    requires
        comps_ok(cs),
        cs.len() > 0,
    ensures
        comps_ok(cs.drop_last()),
{
    let init = cs.drop_last();
    assert forall|i: int| 0 <= i < init.len() implies {
        &&& (#[trigger] init[i]).len() > 0
        &&& (init[i] == root() && i == 0) || forall|k: int| 0 <= k < init[i].len() ==> init[i][k] != '/'
    } by {
        assert(init[i] == cs[i]);
    }
}

/// Two well-formed component lists with the same key are the same list.
pub proof fn lemma_comps_key_injective(a: Seq<Seq<char>>, b: Seq<Seq<char>>)
    requires
        comps_ok(a),
        comps_ok(b),
        comps_key(a) == comps_key(b),
    ensures
        a == b,
    decreases a.len(),
{
    lemma_comps_key_shape(a);
    lemma_comps_key_shape(b);
    if a.len() == 0 || b.len() == 0 {
        assert(a.len() == 0 && b.len() == 0);
        assert(a =~= b);
    } else {
        let ai = a.drop_last();
        let bi = b.drop_last();
        let x = a.last();
        let y = b.last();
        let ka = comps_key(ai);
        let kb = comps_key(bi);
        lemma_comps_key_shape(ai);
        lemma_comps_key_shape(bi);
        lemma_comps_ok_init(a);
        lemma_comps_ok_init(b);
        let k = comps_key(a);
        assert(k == ka + x + seq!['/']);
        assert(k == kb + y + seq!['/']);
        let ka_x = ka + x;
        let kb_y = kb + y;
        assert(ka_x =~= k.drop_last());
        assert(kb_y =~= k.drop_last());
        assert(ka_x == kb_y);
        assert(a[a.len() - 1] == x);
        assert(b[b.len() - 1] == y);
        lemma_last_part_equal(ka, x, a.len() == 1, kb, y, b.len() == 1);
        assert(x == y);
        assert(ka =~= ka_x.subrange(0, ka.len() as int));
        assert(kb =~= kb_y.subrange(0, kb.len() as int));
        lemma_comps_key_injective(ai, bi);
        assert(a =~= ai.push(x));
        assert(b =~= bi.push(y));
    }
}

/// The last part of `ka + x` (where `ka` is empty or ends in `/`) is
/// determined: a part free of `/` is what follows the last `/`, and the
/// root can only stand alone.
proof fn lemma_last_part_equal(ka: Seq<char>, x: Seq<char>, a_single: bool, kb: Seq<char>, y: Seq<char>, b_single: bool)
    requires
        ka + x == kb + y,
        x.len() > 0,
        y.len() > 0,
        ka.len() == 0 || ka.last() == '/',
        kb.len() == 0 || kb.last() == '/',
        (x == root() && a_single && ka.len() == 0) || forall|k: int| 0 <= k < x.len() ==> x[k] != '/',
        (y == root() && b_single && kb.len() == 0) || forall|k: int| 0 <= k < y.len() ==> y[k] != '/',
    ensures
        x == y,
        ka.len() == kb.len(),
{
    let s = ka + x;
    let t = kb + y;
    assert(s.len() == t.len());
    if x.len() == y.len() {
        assert(x =~= s.subrange(ka.len() as int, s.len() as int));
        assert(y =~= t.subrange(kb.len() as int, t.len() as int));
    } else if x.len() < y.len() {
        // The char of `s` just before `x` is `/` or there is none; in `t` it lies inside `y`.
        let pos = ka.len() as int - 1;
        if ka.len() == 0 {
            assert(kb.len() + y.len() == x.len());
            assert(false);
        } else {
            assert(s[pos] == '/');
            assert(pos >= kb.len());
            assert(t[pos] == y[pos - kb.len()]);
            if y == root() && b_single && kb.len() == 0 {
                assert(y.len() == 1);
                assert(false);
            } else {
                assert(y[pos - kb.len()] != '/');
                assert(false);
            }
        }
    } else {
        let pos = kb.len() as int - 1;
        if kb.len() == 0 {
            assert(ka.len() + x.len() == y.len());
            assert(false);
        } else {
            assert(t[pos] == '/');
            assert(pos >= ka.len());
            assert(s[pos] == x[pos - ka.len()]);
            if x == root() && a_single && ka.len() == 0 {
                assert(x.len() == 1);
                assert(false);
            } else {
                assert(x[pos - ka.len()] != '/');
                assert(false);
            }
        }
    }
}

/// Two paths have the same parent key exactly when their parents have
/// the same components: the key tells directories apart.
pub proof fn parent_keys_tell_directories_apart(p1: Seq<char>, p2: Seq<char>)
    requires
        parent_key_of(p1) is Some,
        parent_key_of(p2) is Some,
    ensures
        parent_key_of(p1) == parent_key_of(p2) <==> components(p1).drop_last() == components(p2).drop_last(),
{
    lemma_components_ok(p1);
    lemma_components_ok(p2);
    let c1 = components(p1);
    let c2 = components(p2);
    if parent_key_of(p1) == parent_key_of(p2) {
        lemma_comps_ok_init(c1);
        lemma_comps_ok_init(c2);
        lemma_comps_key_injective(c1.drop_last(), c2.drop_last());
    }
}

} // verus!
