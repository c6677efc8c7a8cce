//! File-name parts of slash-separated paths (`Path::file_name`,
//! `Path::file_stem`, `Path::extension` for Unix-style paths).
use vstd::prelude::*;
use crate::text::{chars_of, lemma_trim_end_char_len, rfind_char, trim_end_char};

verus! {

/// The components of a path after the last `/`, once trailing `/` and `.`
/// components are dropped: the final component as `Path::file_name` sees it.
pub open spec fn last_component(p: Seq<char>) -> Seq<char>
    decreases p.len(),
{
    let t = trim_end_char(p, '/');
    let comp = match rfind_char(t, '/') {
        Some(i) => t.skip(i + 1),
        None => t,
    };
    if comp == seq!['.'] && t.len() > 1 {
        // `a/.` names `a`: a trailing current-directory component is dropped
        proof {
            lemma_trim_end_char_len(p, '/');
        }
        last_component(t.take(t.len() - 2))
    } else {
        comp
    }
}

/// `Path::file_name`: the final component unless it is empty, `.` or `..`.
pub open spec fn file_name(p: Seq<char>) -> Option<Seq<char>> {
    let c = last_component(p);
    if c.len() == 0 || c == seq!['.'] || c == seq!['.', '.'] {
        None
    } else {
        Some(c)
    }
}

/// The part of a file name before its last `.`, and the part after it.
/// A name whose only `.` is its first character has no extension.
pub open spec fn split_at_dot(name: Seq<char>) -> (Seq<char>, Option<Seq<char>>) {
    match rfind_char(name, '.') {
        Some(i) => if i == 0 {
            (name, None)
        } else {
            (name.take(i), Some(name.skip(i + 1)))
        },
        None => (name, None),
    }
}

/// `Path::file_stem`.
pub open spec fn file_stem(p: Seq<char>) -> Option<Seq<char>> {
    match file_name(p) {
        Some(n) => Some(split_at_dot(n).0),
        None => None,
    }
}

/// `Path::extension`.
pub open spec fn extension(p: Seq<char>) -> Option<Seq<char>> {
    match file_name(p) {
        Some(n) => split_at_dot(n).1,
        None => None,
    }
}

fn trim_end_slash_len(v: &Vec<char>, n: usize) -> (r: usize)
    requires
        n <= v.len(),
    ensures
        r <= n,
        v@.take(r as int) == trim_end_char(v@.take(n as int), '/'),
{
    let mut b = n;
    while b > 0 && v[b - 1] == '/'
        invariant
            b <= n <= v.len(),
            trim_end_char(v@.take(n as int), '/') == trim_end_char(v@.take(b as int), '/'),
        decreases b,
    {
        proof {
            assert(v@.take(b as int).drop_last() == v@.take(b - 1));
        }
        b = b - 1;
    }
    proof {
        assert(trim_end_char(v@.take(b as int), '/') == v@.take(b as int));
    }
    b
}

fn rfind_in(v: &Vec<char>, n: usize, c: char) -> (r: Option<usize>)
    requires
        n <= v.len(),
    ensures
        match r {
            Some(i) => rfind_char(v@.take(n as int), c) == Some(i as int) && i < n,
            None => rfind_char(v@.take(n as int), c) is None,
        },
{
    let mut j = n;
    while j > 0
        invariant
            j <= n <= v.len(),
            rfind_char(v@.take(n as int), c) == rfind_char(v@.take(j as int), c),
        decreases j,
    {
        if v[j - 1] == c {
            return Some(j - 1);
        }
        proof {
            assert(v@.take(j as int).drop_last() == v@.take(j - 1));
        }
        j = j - 1;
    }
    None
}

/// Bounds `(a, b)` of the final component of `v[..n]`.
fn last_component_bounds(v: &Vec<char>, n: usize) -> (r: (usize, usize))
    requires
        n <= v.len(),
    ensures
        r.0 <= r.1 <= n,
        v@.subrange(r.0 as int, r.1 as int) == last_component(v@.take(n as int)),
    decreases n,
{
    let t = trim_end_slash_len(v, n);
    let start = match rfind_in(v, t, '/') {
        Some(i) => i + 1,
        None => 0,
    };
    proof {
        let ts = v@.take(t as int);
        assert(ts == trim_end_char(v@.take(n as int), '/'));
        match rfind_char(ts, '/') {
            Some(i) => {
                assert(ts.skip(i + 1) == v@.subrange(start as int, t as int));
            },
            None => {
                assert(ts == v@.subrange(0, t as int));
            },
        }
    }
    if t - start == 1 && v[start] == '.' && t > 1 {
        proof {
            let p = v@.take(n as int);
            let ts = v@.take(t as int);
            assert(v@.subrange(start as int, t as int) == seq!['.']);
            assert(ts.take(ts.len() - 2) == v@.take(t - 2));
            assert(last_component(p) == last_component(ts.take(ts.len() - 2)));
        }
        let r = last_component_bounds(v, t - 2);
        r
    } else {
        proof {
            let p = v@.take(n as int);
            let ts = v@.take(t as int);
            let comp = v@.subrange(start as int, t as int);
            if comp == seq!['.'] {
                assert(comp.len() == 1);
                assert(comp[0] == v@[start as int]);
                assert(ts.len() <= 1);
            }
            assert(last_component(p) == comp);
        }
        (start, t)
    }
}

/// The file name of `path`, if it has one.
pub fn path_file_name(path: &str) -> (r: Option<Vec<char>>)
    ensures
        match r {
            Some(n) => file_name(path@) == Some(n@),
            None => file_name(path@) is None,
        },
{
    let v = chars_of(path);
    let (a, b) = last_component_bounds(&v, v.len());
    proof {
        assert(v@.take(v@.len() as int) == v@);
    }
    let len = b - a;
    if len == 0 || (len == 1 && v[a] == '.') || (len == 2 && v[a] == '.' && v[a + 1] == '.') {
        proof {
            let c = v@.subrange(a as int, b as int);
            if len == 1 {
                assert(c == seq!['.']);
            }
            if len == 2 {
                assert(c == seq!['.', '.']);
            }
        }
        return None;
    }
    let mut name = Vec::new();
    crate::text::push_range(&mut name, &v, a, b);
    proof {
        let c = v@.subrange(a as int, b as int);
        assert(c != seq!['.'] && c != seq!['.', '.']) by {
            if c == seq!['.'] {
                assert(c[0] == v@[a as int]);
            }
            if c == seq!['.', '.'] {
                assert(c[0] == v@[a as int] && c[1] == v@[a + 1]);
            }
        }
    }
    Some(name)
}

/// `(stem length, extension start)` of a file name.
fn dot_split(name: &Vec<char>) -> (r: (usize, Option<usize>))
    ensures
        r.0 <= name.len(),
        name@.take(r.0 as int) == split_at_dot(name@).0,
        match r.1 {
            Some(s) => s <= name.len() && split_at_dot(name@).1 == Some(name@.skip(s as int)),
            None => split_at_dot(name@).1 is None,
        },
{
    match rfind_in(name, name.len(), '.') {
        Some(i) => {
            proof {
                assert(name@.take(name@.len() as int) == name@);
            }
            if i == 0 {
                (name.len(), None)
            } else {
                (i, Some(i + 1))
            }
        },
        None => {
            proof {
                assert(name@.take(name@.len() as int) == name@);
            }
            (name.len(), None)
        },
    }
}

/// `Path::file_stem` of `path`.
pub fn path_file_stem(path: &str) -> (r: Option<String>)
    ensures
        match r {
            Some(s) => file_stem(path@) == Some(s@),
            None => file_stem(path@) is None,
        },
{
    match path_file_name(path) {
        Some(name) => {
            let (n, _) = dot_split(&name);
            Some(crate::text::string_from_range(&name, 0, n))
        },
        None => None,
    }
}

/// `Path::extension` of `path`.
pub fn path_extension(path: &str) -> (r: Option<Vec<char>>)
    ensures
        match r {
            Some(s) => extension(path@) == Some(s@),
            None => extension(path@) is None,
        },
{
    match path_file_name(path) {
        Some(name) => {
            let (_, e) = dot_split(&name);
            match e {
                Some(s) => {
                    let mut ext = Vec::new();
                    crate::text::push_range(&mut ext, &name, s, name.len());
                    proof {
                        assert(name@.subrange(s as int, name@.len() as int) == name@.skip(s as int));
                    }
                    Some(ext)
                },
                None => None,
            }
        },
        None => None,
    }
}

} // verus!
