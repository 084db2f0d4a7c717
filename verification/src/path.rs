//! File names, stems and extensions of `/`-separated paths, as `std::path::Path`
//! reads them, and joining a relative path onto a folder.
use vstd::prelude::*;

use crate::text::{append_str, chars_of, own, push_char, range_eq, string_of};

verus! {

broadcast use vstd::string::group_string_axioms;

/// `k` is the position of the last `c` in `s`.
pub open spec fn is_last_char(s: Seq<char>, c: char, k: int) -> bool {
    &&& 0 <= k < s.len()
    &&& s[k] == c
    &&& forall|j: int| k < j < s.len() ==> s[j] != c
}

/// The position of the last `c` in `s`, if there is one.
pub open spec fn last_char(s: Seq<char>, c: char) -> Option<int> {
    if exists|k: int| is_last_char(s, c, k) {
        Some(choose|k: int| is_last_char(s, c, k))
    } else {
        None
    }
}

/// The last component of a path that is neither empty nor `.`, if any: the
/// root, `.` components and repeated or trailing separators name nothing.
pub open spec fn last_component(p: Seq<char>) -> Option<Seq<char>>
    decreases p.len(),
{
    match last_char(p, '/') {
        Some(j) => {
            let seg = p.skip(j + 1);
            if seg.len() == 0 || seg == "."@ {
                last_component(p.take(j))
            } else {
                Some(seg)
            }
        },
        None => if p.len() == 0 || p == "."@ {
            None
        } else {
            Some(p)
        },
    }
}

/// `Path::file_name`: the last component, unless it is `..`.
pub open spec fn file_name(p: Seq<char>) -> Option<Seq<char>> {
    match last_component(p) {
        Some(seg) => if seg == ".."@ {
            None
        } else {
            Some(seg)
        },
        None => None,
    }
}

/// A file name cut at its last `.`: the stem, and the extension if there is
/// one (a leading `.` starts no extension).
pub open spec fn split_at_dot(f: Seq<char>) -> (Seq<char>, Option<Seq<char>>) {
    match last_char(f, '.') {
        Some(j) => if j == 0 {
            (f, None)
        } else {
            (f.take(j), Some(f.skip(j + 1)))
        },
        None => (f, None),
    }
}

/// `Path::extension`.
pub open spec fn extension(p: Seq<char>) -> Option<Seq<char>> {
    match file_name(p) {
        Some(f) => split_at_dot(f).1,
        None => None,
    }
}

/// `Path::file_stem`.
pub open spec fn file_stem(p: Seq<char>) -> Option<Seq<char>> {
    match file_name(p) {
        Some(f) => Some(split_at_dot(f).0),
        None => None,
    }
}

proof fn lemma_last_char_is(s: Seq<char>, c: char, k: int)
    requires
        is_last_char(s, c, k),
    ensures
        last_char(s, c) == Some(k),
{
    let k2 = choose|k2: int| is_last_char(s, c, k2);
    assert(is_last_char(s, c, k2));
    if k2 < k {
        assert(s[k] != c);
    } else if k < k2 {
        assert(s[k2] != c);
    }
}

/// Position of the last `c` in `v[lo..hi]`.
pub fn rfind_char(v: &Vec<char>, lo: usize, hi: usize, c: char) -> (r: Option<usize>)
    requires
        lo <= hi <= v@.len(),
    ensures
        match r {
            Some(k) => lo <= k < hi && last_char(v@.subrange(lo as int, hi as int), c) == Some(
                k - lo,
            ),
            None => last_char(v@.subrange(lo as int, hi as int), c) is None,
        },
{
    let ghost s = v@.subrange(lo as int, hi as int);
    let mut i = hi;
    while i > lo
        invariant
            lo <= i <= hi <= v@.len(),
            s == v@.subrange(lo as int, hi as int),
            forall|j: int| i - lo <= j < s.len() ==> s[j] != c,
        decreases i - lo,
    {
        let k = i - 1;
        if v[k] == c {
            proof {
                lemma_last_char_is(s, c, k - lo);
            }
            return Some(k);
        }
        i = k;
    }
    None
}

/// The range of the file name of the path `v`, if it has one.
pub fn file_name_range(v: &Vec<char>) -> (r: Option<(usize, usize)>)
    ensures
        match r {
            Some((a, b)) => a <= b <= v@.len() && file_name(v@) == Some(v@.subrange(a as int, b as int)),
            None => file_name(v@) is None,
        },
{
    let dot = chars_of(".");
    let dotdot = chars_of("..");
    let mut end = v.len();
    assert(v@.subrange(0, end as int) =~= v@);
    loop
        invariant
            end <= v@.len(),
            dot@ == "."@,
            dotdot@ == ".."@,
            last_component(v@) == last_component(v@.subrange(0, end as int)),
        decreases end,
    {
        let ghost p = v@.subrange(0, end as int);
        match rfind_char(v, 0, end, '/') {
            Some(j) => {
                assert(p.skip(j + 1) =~= v@.subrange(j + 1, end as int));
                assert(p.take(j as int) =~= v@.subrange(0, j as int));
                if j + 1 == end || range_eq(v, j + 1, end, &dot) {
                    end = j;
                } else {
                    if range_eq(v, j + 1, end, &dotdot) {
                        return None;
                    }
                    return Some((j + 1, end));
                }
            },
            None => {
                if end == 0 || range_eq(v, 0, end, &dot) {
                    return None;
                }
                if range_eq(v, 0, end, &dotdot) {
                    return None;
                }
                return Some((0, end));
            },
        }
    }
}

/// The file name split at its last dot: the stem's end and, when there is an
/// extension, where it starts.
fn split_dot_range(v: &Vec<char>, a: usize, b: usize) -> (r: (usize, Option<usize>))
    requires
        a <= b <= v@.len(),
    ensures
        a <= r.0 <= b,
        split_at_dot(v@.subrange(a as int, b as int)).0 == v@.subrange(a as int, r.0 as int),
        match r.1 {
            Some(e) => r.0 < e <= b && split_at_dot(v@.subrange(a as int, b as int)).1 == Some(
                v@.subrange(e as int, b as int),
            ),
            None => split_at_dot(v@.subrange(a as int, b as int)).1 is None,
        },
{
    let ghost f = v@.subrange(a as int, b as int);
    match rfind_char(v, a, b, '.') {
        Some(j) => {
            if j == a {
                (b, None)
            } else {
                assert(f.take(j - a) =~= v@.subrange(a as int, j as int));
                assert(f.skip(j - a + 1) =~= v@.subrange(j + 1, b as int));
                (j, Some(j + 1))
            }
        },
        None => (b, None),
    }
}

/// `Path::extension`, as a string.
pub fn path_extension(path: &str) -> (r: Option<String>)
    ensures
        match r {
            Some(e) => extension(path@) == Some(e@),
            None => extension(path@) is None,
        },
{
    let v = chars_of(path);
    match file_name_range(&v) {
        Some((a, b)) => {
            let (_, ext) = split_dot_range(&v, a, b);
            match ext {
                Some(e) => Some(string_of(&v, e, b)),
                None => None,
            }
        },
        None => None,
    }
}

/// `Path::file_stem`, as a string.
pub fn path_file_stem(path: &str) -> (r: Option<String>)
    ensures
        match r {
            Some(s) => file_stem(path@) == Some(s@),
            None => file_stem(path@) is None,
        },
{
    let v = chars_of(path);
    match file_name_range(&v) {
        Some((a, b)) => {
            let (stem_end, _) = split_dot_range(&v, a, b);
            Some(string_of(&v, a, stem_end))
        },
        None => None,
    }
}

/// `Path::is_absolute`: the path starts at the root.
pub open spec fn is_absolute(p: Seq<char>) -> bool {
    p.len() > 0 && p[0] == '/'
}

/// `Path::join` with a relative path: a separator goes between the two unless
/// the base is empty or already ends with one.
pub open spec fn join(base: Seq<char>, rel: Seq<char>) -> Seq<char> {
    if base.len() == 0 || base.last() == '/' {
        base + rel
    } else {
        base + "/"@ + rel
    }
}

/// Whether the path starts at the root.
pub fn is_absolute_path(path: &str) -> (r: bool)
    ensures
        r == is_absolute(path@),
{
    let v = chars_of(path);
    v.len() > 0 && v[0] == '/'
}

/// `base` joined with the relative path `rel`.
pub fn join_path(base: &str, rel: &str) -> (r: String)
    ensures
        r@ == join(base@, rel@),
{
    let v = chars_of(base);
    let mut out = own(base);
    if v.len() > 0 && v[v.len() - 1] != '/' {
        push_char(&mut out, '/');
    }
    append_str(&mut out, rel);
    proof {
        if base@.len() > 0 && base@.last() != '/' {
            assert("/"@ =~= seq!['/']) by {
                reveal_strlit("/");
            }
        }
    }
    out
}

} // verus!
