//! File paths held as strings, with `/` as the separator.
use vstd::prelude::*;

use crate::text::{chars_of, string_of};

verus! {

/// Index of the last occurrence of `c` in `s`, or -1.
pub open spec fn last_index_of(s: Seq<char>, c: char) -> int
    decreases s.len(),
{
    if s.len() == 0 {
        -1
    } else if s.last() == c {
        s.len() - 1
    } else {
        last_index_of(s.drop_last(), c)
    }
}

/// Appends `name` to `base`: an absolute `name` replaces `base`, and a
/// separator is put between them where `base` does not end with one.
pub open spec fn join(base: Seq<char>, name: Seq<char>) -> Seq<char> {
    if name.len() > 0 && name[0] == '/' {
        name
    } else if base.len() == 0 || base.last() == '/' {
        base + name
    } else {
        base + seq!['/'] + name
    }
}

/// The path as `Path::components` reads its end: trailing separators and
/// trailing `.` components are dropped; the root `/` and a lone `.` stay.
pub open spec fn trim_tail(p: Seq<char>) -> Seq<char>
    decreases p.len(),
{
    if p.len() > 1 && p.last() == '/' {
        trim_tail(p.drop_last())
    } else if p.len() > 1 && p.last() == '.' && p[p.len() - 2] == '/' {
        trim_tail(p.drop_last())
    } else {
        p
    }
}

/// The text after the last `/` of a path whose end is already trimmed,
/// unless it is empty, `.` or `..`.
pub open spec fn file_name_in(q: Seq<char>) -> Option<Seq<char>> {
    let name = q.subrange(last_index_of(q, '/') + 1, q.len() as int);
    if name.len() == 0 || name == seq!['.'] || name == seq!['.', '.'] {
        None
    } else {
        Some(name)
    }
}

/// The last component of the path, unless it is the root, `.` or `..`.
pub open spec fn file_name(p: Seq<char>) -> Option<Seq<char>> {
    file_name_in(trim_tail(p))
}

/// The parent of a path whose end is already trimmed: what comes before
/// its last component, with that part's own end trimmed.
pub open spec fn parent_in(q: Seq<char>) -> Option<Seq<char>> {
    let k = last_index_of(q, '/');
    if q.len() == 0 || q == seq!['/'] {
        None
    } else if k < 0 {
        Some(Seq::empty())
    } else {
        Some(trim_tail(q.take(k + 1)))
    }
}

/// The path without its last component; `None` for the root and the empty
/// path.
pub open spec fn parent(p: Seq<char>) -> Option<Seq<char>> {
    parent_in(trim_tail(p))
}

/// The file name without its extension: everything before the last `.`,
/// unless that dot starts the name.
pub open spec fn stem_of_name(name: Seq<char>) -> Seq<char> {
    let d = last_index_of(name, '.');
    if d <= 0 {
        name
    } else {
        name.take(d)
    }
}

pub open spec fn file_stem(p: Seq<char>) -> Option<Seq<char>> {
    match file_name(p) {
        Some(name) => Some(stem_of_name(name)),
        None => None,
    }
}

/// The extension of the file name: what follows its last `.`, unless that
/// dot starts the name.
pub open spec fn extension(p: Seq<char>) -> Option<Seq<char>> {
    match file_name(p) {
        Some(name) => {
            let d = last_index_of(name, '.');
            if d <= 0 {
                None
            } else {
                Some(name.skip(d + 1))
            }
        },
        None => None,
    }
}

/// The path cut right after the stem of its file name (its trailing
/// separators go too), then `.` and `ext` unless `ext` is empty; a path
/// without a file name is left as it is.
pub open spec fn with_extension(p: Seq<char>, ext: Seq<char>) -> Seq<char> {
    match file_name(p) {
        Some(name) => {
            let q = trim_tail(p);
            let kept = q.take(q.len() - name.len() + stem_of_name(name).len());
            if ext.len() == 0 {
                kept
            } else {
                kept + seq!['.'] + ext
            }
        },
        None => p,
    }
}

/// Ends a component of the scan: empty components (repeated or trailing
/// separators) and `.` components are skipped.
pub open spec fn flush_component(done: Seq<Seq<char>>, cur: Seq<char>) -> Seq<Seq<char>> {
    if cur.len() == 0 || cur == seq!['.'] {
        done
    } else {
        done.push(cur)
    }
}

/// Left-to-right scan of a path: the components ended so far and the
/// characters of the one being read.
pub open spec fn split_scan(p: Seq<char>) -> (Seq<Seq<char>>, Seq<char>)
    decreases p.len(),
{
    if p.len() == 0 {
        (Seq::empty(), Seq::empty())
    } else {
        let (done, cur) = split_scan(p.drop_last());
        if p.last() == '/' {
            (flush_component(done, cur), Seq::empty())
        } else {
            (done, cur.push(p.last()))
        }
    }
}

/// The components of a path as `Path::components` yields them: `/` for a
/// root, `.` for a leading current-directory component, then every other
/// component but the empty and `.` ones (`..` is kept).
pub open spec fn path_components(p: Seq<char>) -> Seq<Seq<char>> {
    let lead: Seq<Seq<char>> = if p.len() > 0 && p[0] == '/' {
        seq![seq!['/']]
    } else if p == seq!['.'] || (p.len() > 1 && p[0] == '.' && p[1] == '/') {
        seq![seq!['.']]
    } else {
        Seq::empty()
    };
    let (done, cur) = split_scan(p);
    lead + flush_component(done, cur)
}

/// Whether two paths are equal as `Path`s: they have the same components.
pub open spec fn same_path(a: Seq<char>, b: Seq<char>) -> bool {
    path_components(a) == path_components(b)
}

pub fn last_index_of_exec(s: &Vec<char>, c: char) -> (r: isize)
    requires
        s.len() < isize::MAX,
    ensures
        r == last_index_of(s@, c),
{
    let mut i: usize = s.len();
    assert(s@.take(i as int) =~= s@);
    while i > 0
        invariant
            i <= s.len(),
            s.len() < isize::MAX,
            last_index_of(s@, c) == last_index_of(s@.take(i as int), c),
        decreases i,
    {
        if s[i - 1] == c {
            assert(s@.take(i as int).last() == c);
            return (i - 1) as isize;
        }
        assert(s@.take(i as int).drop_last() =~= s@.take(i - 1));
        i -= 1;
    }
    assert(s@.take(0) =~= Seq::<char>::empty());
    -1
}

proof fn lemma_last_index_bounds(s: Seq<char>, c: char)
    ensures
        -1 <= last_index_of(s, c) < s.len(),
        last_index_of(s, c) >= 0 ==> s[last_index_of(s, c)] == c,
        forall|j: int| last_index_of(s, c) < j < s.len() ==> s[j] != c,
    decreases s.len(),
{
    if s.len() > 0 && s.last() != c {
        lemma_last_index_bounds(s.drop_last(), c);
        assert forall|j: int| last_index_of(s, c) < j < s.len() implies s[j] != c by {
            if j < s.len() - 1 {
                assert(s[j] == s.drop_last()[j]);
            }
        }
    }
}

proof fn lemma_trim_tail(p: Seq<char>)
    ensures
        ({
            let t = trim_tail(p);
            &&& t.len() <= p.len()
            &&& t == p.take(t.len() as int)
            &&& trim_tail(t) == t
            &&& (p.len() > 0 ==> t.len() > 0)
        }),
    decreases p.len(),
{
    if (p.len() > 1 && p.last() == '/') || (p.len() > 1 && p.last() == '.' && p[p.len() - 2]
        == '/') {
        lemma_trim_tail(p.drop_last());
        let t = trim_tail(p);
        assert(t == p.drop_last().take(t.len() as int));
        assert(p.drop_last().take(t.len() as int) =~= p.take(t.len() as int));
    } else {
        assert(p.take(p.len() as int) =~= p);
    }
}

/// A parent is never longer than its path.
pub proof fn lemma_parent_len(p: Seq<char>)
    ensures
        parent(p) matches Some(q) ==> q.len() <= p.len(),
{
    lemma_trim_tail(p);
    let t = trim_tail(p);
    lemma_last_index_bounds(t, '/');
    let k = last_index_of(t, '/');
    if k >= 0 {
        lemma_trim_tail(t.take(k + 1));
    }
}

fn subrange_vec(v: &Vec<char>, from: usize, to: usize) -> (out: Vec<char>)
    requires
        from <= to <= v.len(),
    ensures
        out@ == v@.subrange(from as int, to as int),
{
    let mut out: Vec<char> = Vec::new();
    let mut i = from;
    while i < to
        invariant
            from <= i <= to <= v.len(),
            out@ == v@.subrange(from as int, i as int),
        decreases to - i,
    {
        out.push(v[i]);
        i += 1;
        assert(out@ =~= v@.subrange(from as int, i as int));
    }
    out
}

fn subrange_string(v: &Vec<char>, from: usize, to: usize) -> (s: String)
    requires
        from <= to <= v.len(),
    ensures
        s@ == v@.subrange(from as int, to as int),
{
    let out = subrange_vec(v, from, to);
    string_of(&out)
}

/// Drops trailing separators and trailing `.` components in place.
fn trim_tail_exec(v: &mut Vec<char>)
    ensures
        final(v)@ == trim_tail(old(v)@),
        final(v).len() <= old(v).len(),
{
    while v.len() > 1 && (v[v.len() - 1] == '/' || (v[v.len() - 1] == '.' && v[v.len() - 2]
        == '/'))
        invariant
            trim_tail(v@) == trim_tail(old(v)@),
            v.len() <= old(v).len(),
        decreases v.len(),
    {
        let ghost before = v@;
        v.pop();
        assert(v@ =~= before.drop_last());
    }
}

/// The characters of `p` with its end trimmed.
fn trimmed_chars(p: &str) -> (v: Vec<char>)
    ensures
        v@ == trim_tail(p@),
        v.len() <= p@.len(),
{
    let mut v = chars_of(p);
    trim_tail_exec(&mut v);
    v
}

/// `Path::join`, on string paths.
pub fn join_path(base: &str, name: &str) -> (r: String)
    ensures
        r@ == join(base@, name@),
{
    let b = chars_of(base);
    let n = chars_of(name);
    let mut out = b.clone();
    if n.len() > 0 && n[0] == '/' {
        return string_of(&n);
    }
    if !(b.len() == 0 || b[b.len() - 1] == '/') {
        out.push('/');
    }
    let mut i: usize = 0;
    let ghost start = out@;
    while i < n.len()
        invariant
            i <= n.len(),
            out@ == start + n@.take(i as int),
        decreases n.len() - i,
    {
        out.push(n[i]);
        i += 1;
        assert(out@ =~= start + n@.take(i as int));
    }
    assert(n@.take(n.len() as int) =~= n@);
    proof {
        if !(b@.len() == 0 || b@.last() == '/') {
            assert(start =~= b@ + seq!['/']);
        } else {
            assert(start =~= b@);
        }
    }
    string_of(&out)
}

/// Position just past the last `/` of a trimmed path, and whether the text
/// after it is a file name (not empty, `.` or `..`).
fn file_name_start(v: &Vec<char>) -> (r: (usize, bool))
    requires
        v.len() < isize::MAX,
    ensures
        r.0 == last_index_of(v@, '/') + 1,
        r.0 <= v.len(),
        r.1 == file_name_in(v@).is_some(),
{
    proof {
        lemma_last_index_bounds(v@, '/');
    }
    let k = last_index_of_exec(v, '/');
    let start = (k + 1) as usize;
    let len = v.len() - start;
    let ghost name = v@.subrange(start as int, v.len() as int);
    let ok = if len == 0 {
        false
    } else if len == 1 && v[start] == '.' {
        assert(name =~= seq!['.']);
        false
    } else if len == 2 && v[start] == '.' && v[start + 1] == '.' {
        assert(name =~= seq!['.', '.']);
        false
    } else {
        assert(name.len() == 1 ==> name[0] != '.');
        assert(name != seq!['.']) by {
            if name == seq!['.'] {
                assert(name[0] == '.');
            }
        }
        assert(name != seq!['.', '.']) by {
            if name == seq!['.', '.'] {
                assert(name[0] == '.' && name[1] == '.');
            }
        }
        true
    };
    (start, ok)
}

/// `Path::file_name`, on string paths.
pub fn path_file_name(p: &str) -> (r: Option<String>)
    requires
        p@.len() < isize::MAX,
    ensures
        match r {
            Some(s) => file_name(p@) == Some(s@),
            None => file_name(p@).is_none(),
        },
{
    let v = trimmed_chars(p);
    let (start, ok) = file_name_start(&v);
    if ok {
        Some(subrange_string(&v, start, v.len()))
    } else {
        None
    }
}

/// `Path::parent`, on string paths.
pub fn path_parent(p: &str) -> (r: Option<String>)
    requires
        p@.len() < isize::MAX,
    ensures
        match r {
            Some(s) => parent(p@) == Some(s@),
            None => parent(p@).is_none(),
        },
{
    let v = trimmed_chars(p);
    proof {
        lemma_last_index_bounds(v@, '/');
    }
    let k = last_index_of_exec(&v, '/');
    if v.len() == 0 || (v.len() == 1 && v[0] == '/') {
        proof {
            if v@.len() == 1 {
                assert(v@ =~= seq!['/']);
            }
        }
        None
    } else {
        proof {
            if v@ == seq!['/'] {
                assert(v@.len() == 1 && v@[0] == '/');
            }
        }
        if k < 0 {
            Some(String::new())
        } else {
            let mut w = subrange_vec(&v, 0, (k + 1) as usize);
            assert(w@ =~= v@.take(k + 1));
            trim_tail_exec(&mut w);
            Some(string_of(&w))
        }
    }
}

/// Length of the stem within a file name of `len` characters whose last dot
/// is at `d`.
fn stem_len(name_len: usize, d: isize) -> (r: usize)
    requires
        d < name_len,
    ensures
        r == (if d <= 0 { name_len as int } else { d as int }),
{
    if d <= 0 {
        name_len
    } else {
        d as usize
    }
}

/// `Path::with_extension`, on string paths.
pub fn path_with_extension(p: &str, ext: &str) -> (r: String)
    requires
        p@.len() < isize::MAX,
    ensures
        r@ == with_extension(p@, ext@),
{
    let v = trimmed_chars(p);
    let (start, ok) = file_name_start(&v);
    if !ok {
        let whole = chars_of(p);
        return string_of(&whole);
    }
    let namev = subrange_vec(&v, start, v.len());
    proof {
        lemma_last_index_bounds(namev@, '.');
    }
    let d = last_index_of_exec(&namev, '.');
    let keep = start + stem_len(namev.len(), d);
    let mut out = subrange_vec(&v, 0, keep);
    assert(out@ =~= v@.take(keep as int));
    let e = chars_of(ext);
    if e.len() > 0 {
        out.push('.');
        let ghost base = out@;
        let mut k: usize = 0;
        while k < e.len()
            invariant
                k <= e.len(),
                out@ == base + e@.take(k as int),
            decreases e.len() - k,
        {
            out.push(e[k]);
            k += 1;
            assert(out@ =~= base + e@.take(k as int));
        }
        assert(e@.take(e.len() as int) =~= e@);
    }
    string_of(&out)
}

/// `Path::file_stem`, on string paths.
pub fn path_file_stem(p: &str) -> (r: Option<String>)
    requires
        p@.len() < isize::MAX,
    ensures
        match r {
            Some(s) => file_stem(p@) == Some(s@),
            None => file_stem(p@).is_none(),
        },
{
    let v = trimmed_chars(p);
    let (start, ok) = file_name_start(&v);
    if !ok {
        return None;
    }
    let namev = subrange_vec(&v, start, v.len());
    proof {
        lemma_last_index_bounds(namev@, '.');
    }
    let d = last_index_of_exec(&namev, '.');
    Some(subrange_string(&namev, 0, stem_len(namev.len(), d)))
}

/// `Path::extension`, on string paths.
pub fn path_extension(p: &str) -> (r: Option<String>)
    requires
        p@.len() < isize::MAX,
    ensures
        match r {
            Some(s) => extension(p@) == Some(s@),
            None => extension(p@).is_none(),
        },
{
    let v = trimmed_chars(p);
    let (start, ok) = file_name_start(&v);
    if !ok {
        return None;
    }
    let namev = subrange_vec(&v, start, v.len());
    proof {
        lemma_last_index_bounds(namev@, '.');
    }
    let d = last_index_of_exec(&namev, '.');
    if d <= 0 {
        None
    } else {
        Some(subrange_string(&namev, (d + 1) as usize, namev.len()))
    }
}

fn chars_equal(a: &Vec<char>, b: &Vec<char>) -> (r: bool)
    ensures
        r == (a@ == b@),
{
    if a.len() != b.len() {
        return false;
    }
    let mut i: usize = 0;
    while i < a.len()
        invariant
            a.len() == b.len(),
            i <= a.len(),
            forall|j: int| 0 <= j < i ==> a@[j] == b@[j],
        decreases a.len() - i,
    {
        if a[i] != b[i] {
            return false;
        }
        i += 1;
    }
    assert(a@ =~= b@);
    true
}

fn flush_component_exec(done: &mut Vec<Vec<char>>, cur: Vec<char>)
    ensures
        final(done)@.map_values(|c: Vec<char>| c@) == flush_component(
            old(done)@.map_values(|c: Vec<char>| c@),
            cur@,
        ),
{
    if cur.len() == 0 {
    } else if cur.len() == 1 && cur[0] == '.' {
        assert(cur@ =~= seq!['.']);
    } else {
        assert(cur@ != seq!['.']) by {
            if cur@ == seq!['.'] {
                assert(cur@[0] == '.');
            }
        }
        let ghost cv = cur@;
        done.push(cur);
        assert(done@.map_values(|c: Vec<char>| c@) =~= old(done)@.map_values(|c: Vec<char>| c@).push(
            cv,
        ));
    }
}

/// `Path::components`, on string paths: each component as its characters.
pub fn path_components_of(p: &str) -> (r: Vec<Vec<char>>)
    ensures
        r@.map_values(|c: Vec<char>| c@) == path_components(p@),
{
    let v = chars_of(p);
    let mut out: Vec<Vec<char>> = Vec::new();
    if v.len() > 0 && v[0] == '/' {
        let mut root: Vec<char> = Vec::new();
        root.push('/');
        out.push(root);
    } else if (v.len() == 1 && v[0] == '.') || (v.len() > 1 && v[0] == '.' && v[1] == '/') {
        let mut cur_dir: Vec<char> = Vec::new();
        cur_dir.push('.');
        out.push(cur_dir);
        proof {
            if v.len() == 1 {
                assert(v@ =~= seq!['.']);
            }
        }
    } else {
        assert(v@ != seq!['.']) by {
            if v@ == seq!['.'] {
                assert(v@[0] == '.');
            }
        }
    }
    let mut done: Vec<Vec<char>> = Vec::new();
    let mut cur: Vec<char> = Vec::new();
    let mut i: usize = 0;
    assert(v@.take(0) =~= Seq::<char>::empty());
    assert(done@.map_values(|c: Vec<char>| c@) =~= Seq::<Seq<char>>::empty());
    assert(cur@ =~= Seq::<char>::empty());
    while i < v.len()
        invariant
            i <= v.len(),
            v@ == p@,
            (done@.map_values(|c: Vec<char>| c@), cur@) == split_scan(v@.take(i as int)),
        decreases v.len() - i,
    {
        assert(v@.take(i + 1).drop_last() =~= v@.take(i as int));
        assert(v@.take(i + 1).last() == v@[i as int]);
        if v[i] == '/' {
            let c = cur.clone();
            assert(c@ =~= cur@);
            flush_component_exec(&mut done, c);
            cur = Vec::new();
            assert(cur@ =~= Seq::<char>::empty());
        } else {
            cur.push(v[i]);
        }
        i += 1;
    }
    assert(v@.take(v.len() as int) =~= v@);
    flush_component_exec(&mut done, cur);
    let ghost before = out@;
    let ghost rest = done@;
    out.append(&mut done);
    assert(out@.map_values(|c: Vec<char>| c@) =~= before.map_values(|c: Vec<char>| c@)
        + rest.map_values(|c: Vec<char>| c@));
    out
}

/// `Path`'s `==`, on string paths: the same components.
pub fn path_eq(a: &str, b: &str) -> (r: bool)
    ensures
        r == same_path(a@, b@),
{
    let ca = path_components_of(a);
    let cb = path_components_of(b);
    let ghost va = ca@.map_values(|c: Vec<char>| c@);
    let ghost vb = cb@.map_values(|c: Vec<char>| c@);
    if ca.len() != cb.len() {
        assert(va.len() != vb.len());
        return false;
    }
    let mut i: usize = 0;
    while i < ca.len()
        invariant
            ca.len() == cb.len(),
            i <= ca.len(),
            va == ca@.map_values(|c: Vec<char>| c@),
            vb == cb@.map_values(|c: Vec<char>| c@),
            va == path_components(a@),
            vb == path_components(b@),
            forall|j: int| 0 <= j < i ==> va[j] == vb[j],
        decreases ca.len() - i,
    {
        if !chars_equal(&ca[i], &cb[i]) {
            assert(va[i as int] != vb[i as int]);
            return false;
        }
        i += 1;
    }
    assert(va =~= vb);
    true
}

pub open spec fn free_of(s: Seq<char>, c: char) -> bool {
    forall|i: int| 0 <= i < s.len() ==> s[i] != c
}

proof fn lemma_last_index_free_tail(a: Seq<char>, b: Seq<char>, c: char)
    requires
        free_of(b, c),
    ensures
        last_index_of(a + b, c) == last_index_of(a, c),
    decreases b.len(),
{
    if b.len() == 0 {
        assert(a + b =~= a);
    } else {
        assert((a + b).drop_last() =~= a + b.drop_last());
        assert((a + b).last() == b.last());
        lemma_last_index_free_tail(a, b.drop_last(), c);
    }
}

proof fn lemma_last_index_marker(a: Seq<char>, rest: Seq<char>, c: char)
    requires
        free_of(rest, c),
    ensures
        last_index_of(a + seq![c] + rest, c) == a.len(),
{
    lemma_last_index_free_tail(a + seq![c], rest, c);
    assert((a + seq![c]).drop_last() =~= a);
}

proof fn lemma_name_parts(p: Seq<char>)
    requires
        file_name_in(p).is_some(),
    ensures
        ({
            let name = file_name_in(p).unwrap();
            let k = last_index_of(p, '/');
            &&& p == p.take(k + 1) + name
            &&& free_of(name, '/')
            &&& name.len() > 0
            &&& k + 1 == p.len() - name.len()
        }),
{
    lemma_last_index_bounds(p, '/');
    let k = last_index_of(p, '/');
    let name = p.subrange(k + 1, p.len() as int);
    assert(p =~= p.take(k + 1) + name);
    assert forall|i: int| 0 <= i < name.len() implies name[i] != '/' by {
        assert(name[i] == p[k + 1 + i]);
    }
}

proof fn lemma_stem_parts(name: Seq<char>)
    requires
        name.len() > 0,
        free_of(name, '/'),
    ensures
        stem_of_name(name).len() > 0,
        stem_of_name(name).len() <= name.len(),
        free_of(stem_of_name(name), '/'),
        stem_of_name(name) == name.take(stem_of_name(name).len() as int),
{
    lemma_last_index_bounds(name, '.');
    let st = stem_of_name(name);
    assert forall|i: int| 0 <= i < st.len() implies st[i] != '/' by {
        assert(st[i] == name[i]);
    }
    if last_index_of(name, '.') <= 0 {
        assert(name.take(name.len() as int) =~= name);
    }
}

/// Changing the extension of a file keeps it in the same folder and keeps
/// its stem: a transcript written with another extension lies beside the
/// recording and carries its name.
pub proof fn lemma_with_extension_beside(p: Seq<char>, ext: Seq<char>)
    requires
        file_name(p).is_some(),
        ext.len() > 0,
        free_of(ext, '.'),
        free_of(ext, '/'),
    ensures
        parent(with_extension(p, ext)) == parent(p),
        file_stem(with_extension(p, ext)) == file_stem(p),
        extension(with_extension(p, ext)) == Some(ext),
{
    lemma_trim_tail(p);
    let t = trim_tail(p);
    lemma_name_parts(t);
    let name = file_name_in(t).unwrap();
    let k = last_index_of(t, '/');
    let prefix = t.take(k + 1);
    lemma_stem_parts(name);
    let stem = stem_of_name(name);
    let q = with_extension(p, ext);
    let kept = t.take(t.len() - name.len() + stem.len());
    assert(kept =~= prefix + stem) by {
        assert(kept.len() == (prefix + stem).len());
        assert forall|i: int| 0 <= i < kept.len() implies kept[i] == (prefix + stem)[i] by {
            assert(kept[i] == t[i]);
            assert(t[i] == (prefix + name)[i]);
            if i >= prefix.len() {
                assert(stem[i - prefix.len()] == name[i - prefix.len()]);
            }
        }
    }
    let new_name = stem + seq!['.'] + ext;
    assert(q =~= prefix + new_name);
    // The new path has nothing to trim: it ends with the extension.
    assert(q.last() == ext.last());
    assert(ext.last() != '/' && ext.last() != '.') by {
        assert(ext[ext.len() - 1] != '/' && ext[ext.len() - 1] != '.');
    }
    assert(trim_tail(q) == q);
    // The last separator does not move.
    assert(free_of(new_name, '/')) by {
        assert forall|i: int| 0 <= i < new_name.len() implies new_name[i] != '/' by {
            if i < stem.len() {
                assert(new_name[i] == stem[i]);
            } else if i > stem.len() {
                assert(new_name[i] == ext[i - stem.len() - 1]);
            }
        }
    }
    lemma_last_index_free_tail(prefix, new_name, '/');
    lemma_last_index_free_tail(prefix, name, '/');
    assert(t =~= prefix + name);
    lemma_last_index_bounds(t, '/');
    if k >= 0 {
        assert(prefix.last() == '/');
        assert(prefix.drop_last() =~= t.take(k));
        lemma_last_index_bounds(prefix, '/');
    } else {
        assert(prefix =~= Seq::<char>::empty());
    }
    assert(last_index_of(q, '/') == k);
    assert(q.subrange(k + 1, q.len() as int) =~= new_name);
    // The new file name is neither `.` nor `..`.
    assert(new_name.len() >= 3);
    assert(file_name(q) == Some(new_name));
    // Its stem is the old stem: the added dot is the last one.
    lemma_last_index_marker(stem, ext, '.');
    assert(last_index_of(new_name, '.') == stem.len());
    assert(new_name.take(stem.len() as int) =~= stem);
    assert(new_name.skip(stem.len() as int + 1) =~= ext);
    // The folder is unchanged.
    if q.len() == 0 || q == seq!['/'] {
        assert(q.len() >= 3);
        assert(false);
    }
    if t == seq!['/'] {
        assert(name.len() > 0 && free_of(name, '/'));
        assert(t[t.len() - 1] == name[name.len() - 1]);
    }
    if k >= 0 {
        assert(q.take(k + 1) =~= t.take(k + 1));
    }
}

/// A name without `/` that does not end with `.` is the file name of any
/// folder joined with it.
pub proof fn lemma_join_file_name(dir: Seq<char>, name: Seq<char>)
    requires
        name.len() > 0,
        free_of(name, '/'),
        name.last() != '.',
    ensures
        file_name(join(dir, name)) == Some(name),
{
    let j = join(dir, name);
    assert(name[0] != '/');
    let base = if dir.len() == 0 || dir.last() == '/' {
        dir
    } else {
        dir + seq!['/']
    };
    assert(j =~= base + name);
    assert(j.last() == name.last());
    assert(name.last() != '/') by {
        assert(name[name.len() - 1] != '/');
    }
    assert(trim_tail(j) == j);
    lemma_last_index_free_tail(base, name, '/');
    if base.len() > 0 {
        assert(base.last() == '/');
    }
    assert(last_index_of(j, '/') == base.len() - 1);
    assert(j.subrange(base.len() as int, j.len() as int) =~= name);
    assert(name != seq!['.']) by {
        if name == seq!['.'] {
            assert(name.last() == '.');
        }
    }
    assert(name != seq!['.', '.']) by {
        if name == seq!['.', '.'] {
            assert(name.last() == '.');
        }
    }
}

} // verus!
