//! Character-level text operations used throughout the library.
//!
//! Strings are modelled by their `Seq<char>` view. Each executable helper here
//! is proved against a short specification of the corresponding `str` method.
use vstd::prelude::*;

verus! {

/// Unicode `White_Space` characters, as accepted by `char::is_whitespace`.
pub open spec fn is_ws(c: char) -> bool {
    ||| c == '\t'
    ||| c == '\n'
    ||| c == '\u{0B}'
    ||| c == '\u{0C}'
    ||| c == '\r'
    ||| c == ' '
    ||| c == '\u{85}'
    ||| c == '\u{A0}'
    ||| c == '\u{1680}'
    ||| ('\u{2000}' <= c && c <= '\u{200A}')
    ||| c == '\u{2028}'
    ||| c == '\u{2029}'
    ||| c == '\u{202F}'
    ||| c == '\u{205F}'
    ||| c == '\u{3000}'
}

/// ASCII control characters and the C1 control block, as `char::is_control`.
pub open spec fn is_control(c: char) -> bool {
    (c as u32) < 0x20 || (0x7f <= (c as u32) && (c as u32) < 0xa0)
}

pub open spec fn is_ascii_digit(c: char) -> bool {
    '0' <= c && c <= '9'
}

pub open spec fn is_ascii_alpha(c: char) -> bool {
    ('a' <= c && c <= 'z') || ('A' <= c && c <= 'Z')
}

pub open spec fn is_ascii_alnum(c: char) -> bool {
    is_ascii_digit(c) || is_ascii_alpha(c)
}

/// `char::to_ascii_lowercase`.
pub open spec fn lower(c: char) -> char {
    if 'A' <= c && c <= 'Z' {
        ((c as u32) + 32) as char
    } else {
        c
    }
}

pub open spec fn lower_seq(s: Seq<char>) -> Seq<char> {
    s.map_values(|c: char| lower(c))
}

/// `str::eq_ignore_ascii_case`.
pub open spec fn eq_ignore_case(a: Seq<char>, b: Seq<char>) -> bool {
    lower_seq(a) == lower_seq(b)
}

/// `str::trim_start`.
pub open spec fn trim_start(s: Seq<char>) -> Seq<char>
    decreases s.len(),
{
    if s.len() > 0 && is_ws(s[0]) {
        trim_start(s.drop_first())
    } else {
        s
    }
}

/// `str::trim_end`.
pub open spec fn trim_end(s: Seq<char>) -> Seq<char>
    decreases s.len(),
{
    if s.len() > 0 && is_ws(s.last()) {
        trim_end(s.drop_last())
    } else {
        s
    }
}

/// `str::trim`.
pub open spec fn trim(s: Seq<char>) -> Seq<char> {
    trim_end(trim_start(s))
}

/// `str::trim_end_matches` for one character.
pub open spec fn trim_end_char(s: Seq<char>, c: char) -> Seq<char>
    decreases s.len(),
{
    if s.len() > 0 && s.last() == c {
        trim_end_char(s.drop_last(), c)
    } else {
        s
    }
}

/// `str::starts_with`.
pub open spec fn starts_with(s: Seq<char>, p: Seq<char>) -> bool {
    p.len() <= s.len() && s.take(p.len() as int) == p
}

/// `str::ends_with`.
pub open spec fn ends_with(s: Seq<char>, p: Seq<char>) -> bool {
    p.len() <= s.len() && s.skip(s.len() - p.len()) == p
}

/// `p` occurs in `s` at index `i`.
pub open spec fn occurs_at(s: Seq<char>, p: Seq<char>, i: int) -> bool {
    0 <= i && i + p.len() <= s.len() && s.subrange(i, i + p.len()) == p
}

/// `str::contains`.
pub open spec fn contains(s: Seq<char>, p: Seq<char>) -> bool {
    exists|i: int| occurs_at(s, p, i)
}

/// First index of `c` in `s`, if any.
pub open spec fn find_char(s: Seq<char>, c: char) -> Option<int>
    decreases s.len(),
{
    if s.len() == 0 {
        None
    } else if s[0] == c {
        Some(0)
    } else {
        match find_char(s.drop_first(), c) {
            Some(i) => Some(i + 1),
            None => None,
        }
    }
}

/// Last index of `c` in `s`, if any.
pub open spec fn rfind_char(s: Seq<char>, c: char) -> Option<int>
    decreases s.len(),
{
    if s.len() == 0 {
        None
    } else if s.last() == c {
        Some(s.len() - 1)
    } else {
        rfind_char(s.drop_last(), c)
    }
}

/// `str::split_once` on one character.
pub open spec fn split_once(s: Seq<char>, c: char) -> Option<(Seq<char>, Seq<char>)> {
    match find_char(s, c) {
        Some(i) => Some((s.take(i), s.skip(i + 1))),
        None => None,
    }
}

/// A line of `str::lines` that ended with `'\n'`: drops one trailing `'\r'`.
pub open spec fn strip_cr(s: Seq<char>) -> Seq<char> {
    if s.len() > 0 && s.last() == '\r' {
        s.drop_last()
    } else {
        s
    }
}

/// `str::lines`.
pub open spec fn lines(s: Seq<char>) -> Seq<Seq<char>>
    decreases s.len(),
{
    if s.len() == 0 {
        Seq::empty()
    } else {
        match find_char(s, '\n') {
            Some(i) => {
                proof {
                    lemma_find_char(s, '\n');
                }
                seq![strip_cr(s.take(i))] + lines(s.skip(i + 1))
            },
            None => seq![s],
        }
    }
}

/// Joins `parts` with `sep` between consecutive parts (`[T]::join`).
pub open spec fn join(parts: Seq<Seq<char>>, sep: Seq<char>) -> Seq<char>
    decreases parts.len(),
{
    if parts.len() == 0 {
        Seq::empty()
    } else if parts.len() == 1 {
        parts[0]
    } else {
        join(parts.drop_last(), sep) + sep + parts.last()
    }
}

/// The value of a string of ASCII digits.
pub open spec fn digits_value(s: Seq<char>) -> nat
    decreases s.len(),
{
    if s.len() == 0 {
        0
    } else {
        digits_value(s.drop_last()) * 10 + ((s.last() as u32) - ('0' as u32)) as nat
    }
}

pub open spec fn all_digits(s: Seq<char>) -> bool {
    forall|i: int| 0 <= i < s.len() ==> is_ascii_digit(#[trigger] s[i])
}

/// The decimal number that `str::parse` reads from `s` for an unsigned type:
/// an optional `'+'` followed by at least one ASCII digit.
pub open spec fn parse_unsigned(s: Seq<char>) -> Option<nat> {
    if unsigned_body(s).len() > 0 && all_digits(unsigned_body(s)) {
        Some(digits_value(unsigned_body(s)))
    } else {
        None
    }
}

/// The digits part of an unsigned number: `s` without one leading `'+'`.
pub open spec fn unsigned_body(s: Seq<char>) -> Seq<char> {
    if s.len() > 0 && s[0] == '+' {
        s.drop_first()
    } else {
        s
    }
}

/// `str::parse::<u16>`.
pub open spec fn parse_u16(s: Seq<char>) -> Option<u16> {
    match parse_unsigned(s) {
        Some(v) => if v <= u16::MAX {
            Some(v as u16)
        } else {
            None
        },
        None => None,
    }
}

/// `str::parse::<usize>`.
pub open spec fn parse_usize(s: Seq<char>) -> Option<usize> {
    match parse_unsigned(s) {
        Some(v) => if v <= usize::MAX {
            Some(v as usize)
        } else {
            None
        },
        None => None,
    }
}

/// `str::parse::<u64>`.
pub open spec fn parse_u64(s: Seq<char>) -> Option<u64> {
    match parse_unsigned(s) {
        Some(v) => if v <= u64::MAX {
            Some(v as u64)
        } else {
            None
        },
        None => None,
    }
}

pub open spec fn digit_char(d: nat) -> char {
    ((d % 10) + ('0' as u32)) as char
}

/// The decimal representation of `n`, as `u64::to_string` writes it.
pub open spec fn decimal(n: nat) -> Seq<char>
    decreases n,
{
    if n < 10 {
        seq![digit_char(n)]
    } else {
        decimal(n / 10).push(digit_char(n % 10))
    }
}

/// `s` repeated `n` times (`str::repeat`).
pub open spec fn repeat(s: Seq<char>, n: nat) -> Seq<char>
    decreases n,
{
    if n == 0 {
        Seq::empty()
    } else {
        repeat(s, (n - 1) as nat) + s
    }
}

/// Appends `c` to `s` (`String::push`).
#[verifier::external_body]
pub(crate) fn string_push(s: &mut String, c: char)
    ensures
        final(s)@ == old(s)@.push(c),
{
    s.push(c);
}

/// The characters of `s` (`str::chars` collected into a vector).
pub fn chars_of(s: &str) -> (v: Vec<char>)
    ensures
        v@ == s@,
{
    let mut v: Vec<char> = Vec::new();
    for c in it: s.chars()
        invariant
            v@ == s@.take(it.index() as int),
            it.seq() == s@,
    {
        v.push(c);
    }
    v
}

/// Builds a `String` from the characters `v[from..to]`.
pub fn string_from_range(v: &Vec<char>, from: usize, to: usize) -> (s: String)
    requires
        from <= to <= v.len(),
    ensures
        s@ == v@.subrange(from as int, to as int),
{
    let mut s = String::new();
    let mut i = from;
    while i < to
        invariant
            from <= i <= to <= v.len(),
            s@ == v@.subrange(from as int, i as int),
        decreases to - i,
    {
        string_push(&mut s, v[i]);
        i = i + 1;
    }
    s
}

/// Builds a `String` from all of `v`.
pub fn string_from_chars(v: &Vec<char>) -> (s: String)
    ensures
        s@ == v@,
{
    let s = string_from_range(v, 0, v.len());
    proof {
        assert(v@.subrange(0, v@.len() as int) == v@);
    }
    s
}

/// Appends `v[from..to]` to `out`.
pub fn push_range(out: &mut Vec<char>, v: &Vec<char>, from: usize, to: usize)
    requires
        from <= to <= v.len(),
    ensures
        final(out)@ == old(out)@ + v@.subrange(from as int, to as int),
{
    let mut i = from;
    while i < to
        invariant
            from <= i <= to <= v.len(),
            out@ == old(out)@ + v@.subrange(from as int, i as int),
        decreases to - i,
    {
        out.push(v[i]);
        i = i + 1;
        proof {
            assert(v@.subrange(from as int, i as int) == v@.subrange(from as int, i - 1).push(
                v@[i - 1],
            ));
        }
    }
}

/// Appends all of `v` to `out`.
pub fn push_all(out: &mut Vec<char>, v: &Vec<char>)
    ensures
        final(out)@ == old(out)@ + v@,
{
    push_range(out, v, 0, v.len());
    proof {
        assert(v@.subrange(0, v@.len() as int) == v@);
    }
}

/// Appends the characters of `s` to `out`.
pub fn push_str(out: &mut Vec<char>, s: &str)
    ensures
        final(out)@ == old(out)@ + s@,
{
    let v = chars_of(s);
    push_all(out, &v);
}

pub fn is_ws_char(c: char) -> (b: bool)
    ensures
        b == is_ws(c),
{
    c == '\t' || c == '\n' || c == '\u{0B}' || c == '\u{0C}' || c == '\r' || c == ' ' || c
        == '\u{85}' || c == '\u{A0}' || c == '\u{1680}' || ('\u{2000}' <= c && c <= '\u{200A}')
        || c == '\u{2028}' || c == '\u{2029}' || c == '\u{202F}' || c == '\u{205F}' || c
        == '\u{3000}'
}

pub fn is_control_char(c: char) -> (b: bool)
    ensures
        b == is_control(c),
{
    let u = c as u32;
    u < 0x20 || (0x7f <= u && u < 0xa0)
}

pub fn is_ascii_digit_char(c: char) -> (b: bool)
    ensures
        b == is_ascii_digit(c),
{
    '0' <= c && c <= '9'
}

pub fn is_ascii_alnum_char(c: char) -> (b: bool)
    ensures
        b == is_ascii_alnum(c),
{
    ('0' <= c && c <= '9') || ('a' <= c && c <= 'z') || ('A' <= c && c <= 'Z')
}

pub fn lower_char(c: char) -> (r: char)
    ensures
        r == lower(c),
{
    if 'A' <= c && c <= 'Z' {
        let u = (c as u32) + 32;
        proof {
            assert(0x61 <= u <= 0x7a);
        }
        ((u as u8) as char)
    } else {
        c
    }
}

proof fn lemma_trim_start_skip(s: Seq<char>, i: int)
    requires
        0 <= i < s.len(),
        is_ws(s[i]),
    ensures
        trim_start(s.skip(i)) == trim_start(s.skip(i + 1)),
{
    assert(s.skip(i).drop_first() == s.skip(i + 1));
}

proof fn lemma_trim_end_take(s: Seq<char>, j: int)
    requires
        0 < j <= s.len(),
        is_ws(s[j - 1]),
    ensures
        trim_end(s.take(j)) == trim_end(s.take(j - 1)),
{
    assert(s.take(j).drop_last() == s.take(j - 1));
}

/// The bounds `(a, b)` such that `v[a..b]` is `str::trim` of `v`.
pub fn trim_bounds(v: &Vec<char>) -> (r: (usize, usize))
    ensures
        r.0 <= r.1 <= v.len(),
        v@.subrange(r.0 as int, r.1 as int) == trim(v@),
        trim_start(v@) == v@.skip(r.0 as int),
{
    let mut a: usize = 0;
    proof {
        assert(v@.skip(0) == v@);
    }
    while a < v.len() && is_ws_char(v[a])
        invariant
            a <= v.len(),
            trim_start(v@) == trim_start(v@.skip(a as int)),
        decreases v.len() - a,
    {
        proof {
            lemma_trim_start_skip(v@, a as int);
        }
        a = a + 1;
    }
    proof {
        assert(trim_start(v@.skip(a as int)) == v@.skip(a as int));
    }
    let ghost t = v@.skip(a as int);
    let mut b: usize = v.len();
    proof {
        assert(t.take(b - a) == t);
    }
    while b > a && is_ws_char(v[b - 1])
        invariant
            a <= b <= v.len(),
            t == v@.skip(a as int),
            trim_end(t) == trim_end(t.take(b - a)),
        decreases b,
    {
        proof {
            assert(t[b - a - 1] == v@[b - 1]);
            lemma_trim_end_take(t, b - a);
        }
        b = b - 1;
    }
    proof {
        assert(trim_end(t.take(b - a)) == t.take(b - a));
        assert(t.take(b - a) == v@.subrange(a as int, b as int));
    }
    (a, b)
}

/// `str::trim`, returning a new `String`.
pub fn trim_str(s: &str) -> (r: String)
    ensures
        r@ == trim(s@),
{
    let v = chars_of(s);
    let (a, b) = trim_bounds(&v);
    string_from_range(&v, a, b)
}

/// `str::trim` on a character vector.
pub fn trim_vec(v: &Vec<char>) -> (r: Vec<char>)
    ensures
        r@ == trim(v@),
{
    let (a, b) = trim_bounds(v);
    let mut r = Vec::new();
    push_range(&mut r, v, a, b);
    r
}

proof fn lemma_trim_end_char_take(s: Seq<char>, j: int, c: char)
    requires
        0 < j <= s.len(),
        s[j - 1] == c,
    ensures
        trim_end_char(s.take(j), c) == trim_end_char(s.take(j - 1), c),
{
    assert(s.take(j).drop_last() == s.take(j - 1));
}

/// Trimming never makes a sequence longer.
pub proof fn lemma_trim_end_char_len(s: Seq<char>, c: char)
    ensures
        trim_end_char(s, c).len() <= s.len(),
    decreases s.len(),
{
    if s.len() > 0 && s.last() == c {
        lemma_trim_end_char_len(s.drop_last(), c);
    }
}

/// Length of `str::trim_end_matches(c)` of `v`.
pub fn trim_end_char_len(v: &Vec<char>, c: char) -> (n: usize)
    ensures
        n <= v.len(),
        v@.take(n as int) == trim_end_char(v@, c),
{
    let mut b: usize = v.len();
    proof {
        assert(v@.take(b as int) == v@);
    }
    while b > 0 && v[b - 1] == c
        invariant
            b <= v.len(),
            trim_end_char(v@, c) == trim_end_char(v@.take(b as int), c),
        decreases b,
    {
        proof {
            lemma_trim_end_char_take(v@, b as int, c);
        }
        b = b - 1;
    }
    b
}

/// `str::starts_with`.
pub fn starts_with_vec(s: &Vec<char>, p: &Vec<char>) -> (b: bool)
    ensures
        b == starts_with(s@, p@),
{
    if p.len() > s.len() {
        return false;
    }
    let mut i: usize = 0;
    while i < p.len()
        invariant
            p.len() <= s.len(),
            i <= p.len(),
            forall|k: int| 0 <= k < i ==> s@[k] == p@[k],
        decreases p.len() - i,
    {
        if s[i] != p[i] {
            proof {
                assert(s@.take(p@.len() as int)[i as int] != p@[i as int]);
            }
            return false;
        }
        i = i + 1;
    }
    proof {
        assert(s@.take(p@.len() as int) == p@);
    }
    true
}

/// Whether `p` occurs in `s` at index `at`.
pub fn occurs_at_vec(s: &Vec<char>, p: &Vec<char>, at: usize) -> (b: bool)
    ensures
        b == occurs_at(s@, p@, at as int),
{
    if at > s.len() || p.len() > s.len() - at {
        return false;
    }
    let mut i: usize = 0;
    while i < p.len()
        invariant
            at + p.len() <= s.len(),
            i <= p.len(),
            forall|k: int| 0 <= k < i ==> s@[at + k] == p@[k],
        decreases p.len() - i,
    {
        if s[at + i] != p[i] {
            proof {
                assert(s@.subrange(at as int, at + p@.len())[i as int] != p@[i as int]);
            }
            return false;
        }
        i = i + 1;
    }
    proof {
        assert(s@.subrange(at as int, at + p@.len()) == p@);
    }
    true
}

/// `str::ends_with`.
pub fn ends_with_vec(s: &Vec<char>, p: &Vec<char>) -> (b: bool)
    ensures
        b == ends_with(s@, p@),
{
    if p.len() > s.len() {
        return false;
    }
    let r = occurs_at_vec(s, p, s.len() - p.len());
    proof {
        assert(s@.subrange(s@.len() - p@.len(), s@.len() as int) == s@.skip(
            s@.len() - p@.len(),
        ));
    }
    r
}

/// First index at which `p` occurs in `s`.
pub fn find_vec(s: &Vec<char>, p: &Vec<char>) -> (r: Option<usize>)
    ensures
        match r {
            Some(i) => occurs_at(s@, p@, i as int) && forall|j: int|
                0 <= j < i ==> !occurs_at(s@, p@, j),
            None => !contains(s@, p@),
        },
{
    if p.len() > s.len() {
        assert forall|j: int| !occurs_at(s@, p@, j) by {}
        return None;
    }
    let last = s.len() - p.len();
    let mut i: usize = 0;
    while i < last
        invariant
            p.len() <= s.len(),
            last == s.len() - p.len(),
            i <= last,
            forall|j: int| 0 <= j < i ==> !occurs_at(s@, p@, j),
        decreases last - i,
    {
        if occurs_at_vec(s, p, i) {
            return Some(i);
        }
        i = i + 1;
    }
    if occurs_at_vec(s, p, last) {
        return Some(last);
    }
    assert forall|j: int| !occurs_at(s@, p@, j) by {
        if 0 <= j <= last {
        } else {
        }
    }
    None
}

/// `str::contains`.
pub fn contains_vec(s: &Vec<char>, p: &Vec<char>) -> (b: bool)
    ensures
        b == contains(s@, p@),
{
    match find_vec(s, p) {
        Some(_) => true,
        None => false,
    }
}

/// First index of character `c` in `v[from..]`, relative to the whole vector.
pub fn find_char_from(v: &Vec<char>, c: char, from: usize) -> (r: Option<usize>)
    requires
        from <= v.len(),
    ensures
        match r {
            Some(i) => find_char(v@.skip(from as int), c) == Some(i - from) && from <= i < v.len()
                && v@[i as int] == c,
            None => find_char(v@.skip(from as int), c) is None,
        },
{
    let mut i = v.len();
    let mut res: Option<usize> = None;
    // scan backwards so that the recursive definition unfolds from the end of the prefix
    while i > from
        invariant
            from <= i <= v.len(),
            match res {
                Some(k) => i <= k < v.len() && find_char(v@.skip(i as int), c) == Some(k - i)
                    && v@[k as int] == c,
                None => find_char(v@.skip(i as int), c) is None,
            },
        decreases i,
    {
        let ghost old_i = i;
        i = i - 1;
        proof {
            assert(v@.skip(i as int).drop_first() == v@.skip(old_i as int));
        }
        if v[i] == c {
            res = Some(i);
        }
    }
    res
}

proof fn lemma_find_char_bounds(s: Seq<char>, c: char)
    ensures
        match find_char(s, c) {
            Some(i) => 0 <= i < s.len() && s[i] == c && forall|j: int| 0 <= j < i ==> s[j] != c,
            None => forall|j: int| 0 <= j < s.len() ==> s[j] != c,
        },
    decreases s.len(),
{
    if s.len() > 0 {
        lemma_find_char_bounds(s.drop_first(), c);
        if s[0] != c {
            match find_char(s.drop_first(), c) {
                Some(i) => {
                    assert forall|j: int| 0 <= j < i + 1 implies s[j] != c by {
                        if j > 0 {
                            assert(s[j] == s.drop_first()[j - 1]);
                        }
                    }
                },
                None => {
                    assert forall|j: int| 0 <= j < s.len() implies s[j] != c by {
                        if j > 0 {
                            assert(s[j] == s.drop_first()[j - 1]);
                        }
                    }
                },
            }
        }
    }
}

/// Characterisation of `find_char` by its first occurrence.
pub proof fn lemma_find_char(s: Seq<char>, c: char)
    ensures
        match find_char(s, c) {
            Some(i) => 0 <= i < s.len() && s[i] == c && forall|j: int| 0 <= j < i ==> s[j] != c,
            None => forall|j: int| 0 <= j < s.len() ==> s[j] != c,
        },
{
    lemma_find_char_bounds(s, c);
}

/// `str::split_once` on one character, as the index of the separator.
pub fn split_once_index(v: &Vec<char>, c: char) -> (r: Option<usize>)
    ensures
        match r {
            Some(i) => find_char(v@, c) == Some(i as int) && i < v.len(),
            None => find_char(v@, c) is None,
        },
{
    let r = find_char_from(v, c, 0);
    proof {
        assert(v@.skip(0) == v@);
    }
    r
}

/// Splits `v` the way `str::lines` does.
pub fn lines_vec(v: &Vec<char>) -> (r: Vec<Vec<char>>)
    ensures
        r@.len() == lines(v@).len(),
        forall|k: int| 0 <= k < r@.len() ==> #[trigger] r@[k]@ == lines(v@)[k],
{
    let mut out: Vec<Vec<char>> = Vec::new();
    let mut pos: usize = 0;
    let ghost acc: Seq<Seq<char>> = Seq::empty();
    proof {
        assert(v@.skip(0) == v@);
    }
    while pos < v.len()
        invariant
            pos <= v.len(),
            out@.len() == acc.len(),
            forall|k: int| 0 <= k < out@.len() ==> #[trigger] out@[k]@ == acc[k],
            acc + lines(v@.skip(pos as int)) == lines(v@),
        decreases v.len() - pos,
    {
        let ghost rest = v@.skip(pos as int);
        match find_char_from(v, '\n', pos) {
            Some(i) => {
                let mut end = i;
                if end > pos && v[end - 1] == '\r' {
                    end = end - 1;
                }
                let mut line = Vec::new();
                push_range(&mut line, v, pos, end);
                proof {
                    assert(rest.take(i - pos) == v@.subrange(pos as int, i as int));
                    assert(line@ == strip_cr(rest.take(i - pos)));
                    assert(rest.skip(i - pos + 1) == v@.skip(i + 1));
                    assert(lines(rest) == seq![line@] + lines(v@.skip(i + 1)));
                    acc = acc.push(line@);
                    assert(acc + lines(v@.skip(i + 1)) == lines(v@)) by {
                        assert(acc.drop_last() + (seq![line@] + lines(v@.skip(i + 1)))
                            == acc + lines(v@.skip(i + 1)));
                    }
                }
                out.push(line);
                pos = i + 1;
            },
            None => {
                let mut line = Vec::new();
                push_range(&mut line, v, pos, v.len());
                proof {
                    assert(line@ == rest);
                    assert(lines(rest) == seq![rest]);
                    acc = acc.push(line@);
                    assert(lines(v@.skip(v@.len() as int)) == Seq::<Seq<char>>::empty());
                    assert(acc + lines(v@.skip(v@.len() as int)) == lines(v@)) by {
                        assert(acc.drop_last() + seq![rest] == acc);
                    }
                }
                out.push(line);
                pos = v.len();
            },
        }
    }
    proof {
        assert(v@.skip(pos as int).len() == 0);
        assert(acc + lines(v@.skip(pos as int)) == acc);
    }
    out
}

proof fn lemma_decimal_len(n: nat)
    ensures
        decimal(n).len() >= 1,
    decreases n,
{
    if n >= 10 {
        lemma_decimal_len(n / 10);
    }
}

/// The decimal digits of `n`, as `u64::to_string`.
pub fn decimal_of(n: u64) -> (r: Vec<char>)
    ensures
        r@ == decimal(n as nat),
    decreases n,
{
    if n < 10 {
        let c = ((n as u8) + 48) as char;
        let mut r = Vec::new();
        r.push(c);
        proof {
            assert(r@ == seq![digit_char(n as nat)]);
        }
        r
    } else {
        let mut r = decimal_of(n / 10);
        let d = n % 10;
        let c = ((d as u8) + 48) as char;
        r.push(c);
        proof {
            assert(c == digit_char((n % 10) as nat));
        }
        r
    }
}

/// Appends the decimal digits of `n` to `out`.
pub fn push_decimal(out: &mut Vec<char>, n: u64)
    ensures
        final(out)@ == old(out)@ + decimal(n as nat),
{
    let d = decimal_of(n);
    push_all(out, &d);
}

proof fn lemma_digits_step(s: Seq<char>, k: int)
    requires
        0 <= k < s.len(),
    ensures
        digits_value(s.take(k + 1)) == digits_value(s.take(k)) * 10 + ((s[k] as u32) - ('0' as u32)) as nat,
        all_digits(s.take(k)) && is_ascii_digit(s[k]) ==> all_digits(s.take(k + 1)),
{
    assert(s.take(k + 1).drop_last() == s.take(k));
    assert(s.take(k + 1).last() == s[k]);
    if all_digits(s.take(k)) && is_ascii_digit(s[k]) {
        assert forall|j: int| 0 <= j < k + 1 implies is_ascii_digit(#[trigger] s.take(k + 1)[j]) by {
            if j < k {
                assert(s.take(k + 1)[j] == s.take(k)[j]);
            }
        }
    }
}

/// `str::parse::<u64>` on the characters `v`.
pub fn parse_u64_vec(v: &Vec<char>) -> (r: Option<u64>)
    ensures
        r == parse_u64(v@),
{
    let mut start: usize = 0;
    if v.len() > 0 && v[0] == '+' {
        start = 1;
    }
    let ghost body = unsigned_body(v@);
    proof {
        assert(body == v@.skip(start as int));
    }
    if start >= v.len() {
        return None;
    }
    let mut acc: u64 = 0;
    let mut big = false;
    let mut i = start;
    proof {
        assert(body.take(0) == Seq::<char>::empty());
    }
    while i < v.len()
        invariant
            start <= i <= v.len(),
            start < v.len(),
            body == v@.skip(start as int),
            body == unsigned_body(v@),
            all_digits(body.take(i - start)),
            !big ==> acc as nat == digits_value(body.take(i - start)),
            big ==> digits_value(body.take(i - start)) > u64::MAX,
        decreases v.len() - i,
    {
        let c = v[i];
        proof {
            assert(body[i - start] == c);
        }
        if !('0' <= c && c <= '9') {
            proof {
                assert(!is_ascii_digit(body[i - start]));
                assert(!all_digits(body));
                assert(body.len() > 0);
                assert(parse_unsigned(v@) is None);
            }
            return None;
        }
        let d = (c as u32 - 48) as u64;
        proof {
            lemma_digits_step(body, i - start);
        }
        if !big {
            if acc > (u64::MAX - d) / 10 {
                proof {
                    assert(acc * 10 + d > u64::MAX) by (nonlinear_arith)
                        requires
                            acc > (u64::MAX - d) / 10,
                            d <= 9,
                    ;
                }
                big = true;
            } else {
                proof {
                    assert(acc * 10 + d <= u64::MAX) by (nonlinear_arith)
                        requires
                            acc <= (u64::MAX - d) / 10,
                            d <= 9,
                    ;
                }
                acc = acc * 10 + d;
            }
        }
        i = i + 1;
    }
    proof {
        assert(body.take(body.len() as int) == body);
    }
    if big {
        None
    } else {
        Some(acc)
    }
}

/// `str::parse::<u16>` on the characters `v`.
pub fn parse_u16_vec(v: &Vec<char>) -> (r: Option<u16>)
    ensures
        r == parse_u16(v@),
{
    match parse_u64_vec(v) {
        Some(n) => {
            if n <= 65535 {
                Some(n as u16)
            } else {
                None
            }
        },
        None => {
            proof {
                if parse_unsigned(v@) is Some {
                    assert(parse_unsigned(v@).unwrap() > u64::MAX);
                }
            }
            None
        },
    }
}

/// `str::parse::<usize>` on the characters `v`.
pub fn parse_usize_vec(v: &Vec<char>) -> (r: Option<usize>)
    ensures
        r == parse_usize(v@),
{
    match parse_u64_vec(v) {
        Some(n) => {
            if n <= usize::MAX as u64 {
                Some(n as usize)
            } else {
                None
            }
        },
        None => {
            proof {
                if parse_unsigned(v@) is Some {
                    assert(parse_unsigned(v@).unwrap() > u64::MAX);
                }
            }
            None
        },
    }
}

/// Character-wise equality of two vectors.
pub fn vec_eq(a: &Vec<char>, b: &Vec<char>) -> (r: bool)
    ensures
        r == (a@ == b@),
{
    if a.len() != b.len() {
        return false;
    }
    let r = starts_with_vec(a, b);
    proof {
        assert(a@.take(b@.len() as int) == a@);
    }
    r
}

/// Whether the characters of `v` equal those of `s`.
pub fn vec_eq_str(v: &Vec<char>, s: &str) -> (r: bool)
    ensures
        r == (v@ == s@),
{
    let w = chars_of(s);
    vec_eq(v, &w)
}

/// Lowercases every ASCII letter (`str::to_ascii_lowercase`).
pub fn lower_vec(v: &Vec<char>) -> (r: Vec<char>)
    ensures
        r@ == lower_seq(v@),
{
    let mut r: Vec<char> = Vec::new();
    let mut i: usize = 0;
    while i < v.len()
        invariant
            i <= v.len(),
            r@ == lower_seq(v@.take(i as int)),
        decreases v.len() - i,
    {
        r.push(lower_char(v[i]));
        proof {
            assert(v@.take(i + 1) == v@.take(i as int).push(v@[i as int]));
        }
        i = i + 1;
    }
    proof {
        assert(v@.take(v@.len() as int) == v@);
    }
    r
}

/// `str::eq_ignore_ascii_case`.
pub fn eq_ignore_case_vec(a: &Vec<char>, b: &Vec<char>) -> (r: bool)
    ensures
        r == eq_ignore_case(a@, b@),
{
    let la = lower_vec(a);
    let lb = lower_vec(b);
    vec_eq(&la, &lb)
}

} // verus!

verus! {

/// Whether every character of `v` is an ASCII digit.
pub fn all_digits_vec(v: &Vec<char>) -> (b: bool)
    ensures
        b == all_digits(v@),
{
    let mut i: usize = 0;
    while i < v.len()
        invariant
            i <= v.len(),
            forall|j: int| 0 <= j < i ==> is_ascii_digit(#[trigger] v@[j]),
        decreases v.len() - i,
    {
        if !is_ascii_digit_char(v[i]) {
            proof {
                assert(!is_ascii_digit(v@[i as int]));
            }
            return false;
        }
        i = i + 1;
    }
    true
}

/// An owned copy of `s` (`str::to_string`).
pub fn owned(s: &str) -> (r: String)
    ensures
        r@ == s@,
{
    let v = chars_of(s);
    string_from_chars(&v)
}

/// The character sequences of `parts`.
pub open spec fn char_views(parts: Seq<Vec<char>>) -> Seq<Seq<char>> {
    parts.map_values(|p: Vec<char>| p@)
}

/// `parts` joined with `sep` (`[T]::join`).
pub fn join_vec(parts: &Vec<Vec<char>>, sep: &str) -> (r: Vec<char>)
    ensures
        r@ == join(char_views(parts@), sep@),
{
    let mut out: Vec<char> = Vec::new();
    let mut i: usize = 0;
    while i < parts.len()
        invariant
            i <= parts@.len(),
            out@ == join(char_views(parts@).take(i as int), sep@),
        decreases parts.len() - i,
    {
        let ghost before = out@;
        if i > 0 {
            push_str(&mut out, sep);
        }
        push_all(&mut out, &parts[i]);
        proof {
            let v = char_views(parts@);
            assert(v.take(i + 1).drop_last() =~= v.take(i as int));
            assert(v.take(i + 1).last() == parts@[i as int]@);
            if i == 0 {
                assert(v.take(1).len() == 1);
                assert(out@ =~= v.take(1)[0]);
            }
        }
        i = i + 1;
    }
    proof {
        assert(char_views(parts@).take(parts@.len() as int) =~= char_views(parts@));
    }
    out
}

proof fn lemma_trim_start_shape(s: Seq<char>)
    ensures
        trim_start(s).len() > 0 ==> !is_ws(trim_start(s)[0]),
    decreases s.len(),
{
    if s.len() > 0 && is_ws(s[0]) {
        lemma_trim_start_shape(s.drop_first());
    }
}

proof fn lemma_trim_end_shape(s: Seq<char>)
    ensures
        trim_end(s).len() <= s.len(),
        trim_end(s) == s.take(trim_end(s).len() as int),
        trim_end(s).len() > 0 ==> !is_ws(trim_end(s).last()),
    decreases s.len(),
{
    if s.len() > 0 && is_ws(s.last()) {
        lemma_trim_end_shape(s.drop_last());
        assert(s.drop_last().take(trim_end(s).len() as int) =~= s.take(trim_end(s).len() as int));
    } else {
        assert(s.take(s.len() as int) =~= s);
    }
}

/// Trimming twice trims no more than trimming once.
pub proof fn lemma_trim_idempotent(s: Seq<char>)
    ensures
        trim(trim(s)) == trim(s),
{
    let u = trim_start(s);
    let t = trim_end(u);
    lemma_trim_start_shape(s);
    lemma_trim_end_shape(u);
    if t.len() > 0 {
        assert(t[0] == u[0]);
    }
    assert(trim_start(t) == t);
    lemma_trim_end_shape(t);
    if t.len() > 0 {
        assert(trim_end(t) == t);
    } else {
        assert(trim_end(t) == t);
    }
}

/// `char::to_ascii_uppercase`.
pub open spec fn upper(c: char) -> char {
    if 'a' <= c && c <= 'z' {
        ((c as u32) - 32) as char
    } else {
        c
    }
}

pub open spec fn upper_seq(s: Seq<char>) -> Seq<char> {
    s.map_values(|c: char| upper(c))
}

pub fn upper_char(c: char) -> (r: char)
    ensures
        r == upper(c),
{
    if 'a' <= c && c <= 'z' {
        let u = (c as u32) - 32;
        proof {
            assert(0x41 <= u <= 0x5a);
        }
        ((u as u8) as char)
    } else {
        c
    }
}

/// `str::to_ascii_uppercase`.
pub fn upper_vec(v: &Vec<char>) -> (r: Vec<char>)
    ensures
        r@ == upper_seq(v@),
{
    let mut r: Vec<char> = Vec::new();
    let mut i: usize = 0;
    while i < v.len()
        invariant
            i <= v.len(),
            r@ == upper_seq(v@.take(i as int)),
        decreases v.len() - i,
    {
        r.push(upper_char(v[i]));
        proof {
            assert(v@.take(i + 1) == v@.take(i as int).push(v@[i as int]));
        }
        i = i + 1;
    }
    proof {
        assert(v@.take(v@.len() as int) == v@);
    }
    r
}

} // verus!
