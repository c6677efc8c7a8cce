//! Line-level handling of the relay's TOML configuration text: the keys and
//! table headers of a common configuration, and the removal of what a
//! profile repeats of it.
use vstd::prelude::*;
use crate::text::{
    chars_of, ends_with, ends_with_vec, find_char, join, lemma_find_char, lines, lines_vec,
    push_all, push_range, push_str, split_once_index, starts_with, starts_with_vec,
    string_from_chars, trim, trim_end, trim_vec,
};

verus! {

/// The key of a `key = value` line, trimmed; none for blank lines,
/// comments, lines without `=` or with an empty key.
pub open spec fn toml_key(line: Seq<char>) -> Option<Seq<char>> {
    let t = trim(line);
    if t.len() == 0 || t[0] == '#' {
        None
    } else {
        match find_char(t, '=') {
            Some(i) => {
                let key = trim(t.take(i));
                if key.len() == 0 {
                    None
                } else {
                    Some(key)
                }
            },
            None => None,
        }
    }
}

/// `toml_key_from_line`.
pub fn toml_key_from_line(line: &str) -> (r: Option<String>)
    ensures
        match toml_key(line@) {
            Some(k) => r matches Some(s) && s@ == k,
            None => r is None,
        },
{
    let v = chars_of(line);
    key_of_chars(&v)
}

fn key_of_chars(line: &Vec<char>) -> (r: Option<String>)
    ensures
        match toml_key(line@) {
            Some(k) => r matches Some(s) && s@ == k,
            None => r is None,
        },
{
    let t = trim_vec(line);
    if t.len() == 0 || t[0] == '#' {
        return None;
    }
    match split_once_index(&t, '=') {
        Some(i) => {
            let mut left: Vec<char> = Vec::new();
            push_range(&mut left, &t, 0, i);
            let key = trim_vec(&left);
            proof {
                assert(left@ =~= t@.take(i as int));
            }
            if key.len() == 0 {
                None
            } else {
                Some(string_from_chars(&key))
            }
        },
        None => None,
    }
}

/// `value` without its trailing whitespace, ended by one newline; nothing
/// when it is blank.
pub open spec fn with_newline(value: Seq<char>) -> Seq<char> {
    if trim(value).len() == 0 {
        Seq::empty()
    } else {
        trim_end(value) + seq!['\n']
    }
}

fn trim_end_vec(v: &Vec<char>) -> (r: Vec<char>)
    ensures
        r@ == trim_end(v@),
{
    let mut n = v.len();
    proof {
        assert(v@.take(n as int) =~= v@);
    }
    while n > 0 && crate::text::is_ws_char(v[n - 1])
        invariant
            n <= v@.len(),
            trim_end(v@.take(n as int)) == trim_end(v@),
        decreases n,
    {
        proof {
            assert(v@.take(n as int).drop_last() =~= v@.take(n - 1));
        }
        n = n - 1;
    }
    let mut out: Vec<char> = Vec::new();
    push_range(&mut out, v, 0, n);
    proof {
        assert(out@ =~= v@.take(n as int));
    }
    out
}

/// `ensure_text_newline`.
pub fn ensure_text_newline(value: &str) -> (r: String)
    ensures
        r@ == with_newline(value@),
{
    let v = chars_of(value);
    string_from_chars(&newline_chars(&v))
}

fn newline_chars(v: &Vec<char>) -> (r: Vec<char>)
    ensures
        r@ == with_newline(v@),
{
    if trim_vec(v).len() == 0 {
        return Vec::new();
    }
    let mut out = trim_end_vec(v);
    out.push('\n');
    out
}

/// A `[table]` header line (already trimmed).
pub open spec fn is_header(t: Seq<char>) -> bool {
    starts_with(t, "["@) && ends_with(t, "]"@)
}

fn is_header_chars(t: &Vec<char>) -> (r: bool)
    ensures
        r == is_header(t@),
{
    starts_with_vec(t, &chars_of("[")) && ends_with_vec(t, &chars_of("]"))
}

/// The keys set before the first table of `ls[i..]`.
pub open spec fn root_keys_from(ls: Seq<Seq<char>>, i: int) -> Set<Seq<char>>
    decreases ls.len() - i,
{
    if i < 0 || i >= ls.len() || is_header(trim(ls[i])) {
        Set::empty()
    } else {
        match toml_key(trim(ls[i])) {
            Some(k) => root_keys_from(ls, i + 1).insert(k),
            None => root_keys_from(ls, i + 1),
        }
    }
}

/// The table headers among `ls[i..]`, trimmed.
pub open spec fn headers_from(ls: Seq<Seq<char>>, i: int) -> Set<Seq<char>>
    decreases ls.len() - i,
{
    if i < 0 || i >= ls.len() {
        Set::empty()
    } else if is_header(trim(ls[i])) {
        headers_from(ls, i + 1).insert(trim(ls[i]))
    } else {
        headers_from(ls, i + 1)
    }
}

/// What a common configuration sets: its root keys and its table headers.
#[derive(Debug)]
pub struct CommonConfigAnchors {
    pub root_keys: Vec<String>,
    pub table_headers: Vec<String>,
}

pub open spec fn names_of(v: Seq<String>) -> Set<Seq<char>> {
    Set::new(|n: Seq<char>| exists|i: int| 0 <= i < v.len() && #[trigger] v[i]@ == n)
}

/// `common_config_anchors`.
pub fn common_config_anchors(common_config: &str) -> (r: CommonConfigAnchors)
    ensures
        names_of(r.root_keys@) == root_keys_from(lines(common_config@), 0),
        names_of(r.table_headers@) == headers_from(lines(common_config@), 0),
{
    let ls = lines_vec(&chars_of(common_config));
    let ghost all = lines(common_config@);
    let mut root_keys: Vec<String> = Vec::new();
    let mut table_headers: Vec<String> = Vec::new();
    let mut in_table = false;
    let mut i: usize = 0;
    while i < ls.len()
        invariant
            i <= ls@.len(),
            ls@.len() == all.len(),
            forall|k: int| 0 <= k < ls@.len() ==> #[trigger] ls@[k]@ == all[k],
            names_of(table_headers@) + headers_from(all, i as int) == headers_from(all, 0),
            !in_table ==> names_of(root_keys@) + root_keys_from(all, i as int) == root_keys_from(
                all,
                0,
            ),
            in_table ==> names_of(root_keys@) == root_keys_from(all, 0),
        decreases ls.len() - i,
    {
        let t = trim_vec(&ls[i]);
        let ghost rk = root_keys@;
        let ghost th = table_headers@;
        if is_header_chars(&t) {
            in_table = true;
            let header = string_from_chars(&t);
            let ghost hv = header;
            table_headers.push(header);
            proof {
                lemma_names_push(th, hv);
                assert(root_keys_from(all, i as int) == Set::<Seq<char>>::empty());
                assert(names_of(rk) + Set::<Seq<char>>::empty() =~= names_of(rk));
                assert(names_of(table_headers@) + headers_from(all, i + 1) =~= names_of(th)
                    + headers_from(all, i as int));
            }
        } else {
            if !in_table {
                match key_of_chars(&t) {
                    Some(key) => {
                        proof {
                            lemma_trim_trim(ls@[i as int]@);
                        }
                        let ghost kv = key;
                        root_keys.push(key);
                        proof {
                            lemma_names_push(rk, kv);
                            assert(names_of(root_keys@) + root_keys_from(all, i + 1) =~= names_of(
                                rk,
                            ) + root_keys_from(all, i as int));
                        }
                    },
                    None => {
                        proof {
                            lemma_trim_trim(ls@[i as int]@);
                        }
                    },
                }
            }
            proof {
                assert(headers_from(all, i as int) == headers_from(all, i + 1));
            }
        }
        i = i + 1;
    }
    proof {
        assert(headers_from(all, i as int) == Set::<Seq<char>>::empty());
        assert(root_keys_from(all, i as int) == Set::<Seq<char>>::empty());
        assert(names_of(table_headers@) + Set::<Seq<char>>::empty() =~= names_of(table_headers@));
        assert(names_of(root_keys@) + Set::<Seq<char>>::empty() =~= names_of(root_keys@));
    }
    CommonConfigAnchors { root_keys, table_headers }
}

pub proof fn lemma_names_push(v: Seq<String>, s: String)
    ensures
        names_of(v.push(s)) == names_of(v).insert(s@),
{
    let w = v.push(s);
    assert forall|n: Seq<char>| names_of(w).contains(n) <==> #[trigger] names_of(v).insert(s@).contains(n) by {
        if names_of(w).contains(n) {
            let i = choose|i: int| 0 <= i < w.len() && #[trigger] w[i]@ == n;
            if i < v.len() {
                assert(v[i]@ == n);
                assert(names_of(v).contains(n));
            }
        }
        if names_of(v).contains(n) {
            let i = choose|i: int| 0 <= i < v.len() && #[trigger] v[i]@ == n;
            assert(w[i]@ == n);
        }
        if n == s@ {
            assert(w[v.len() as int]@ == n);
        }
    }
    assert(names_of(w) =~= names_of(v).insert(s@));
}

proof fn lemma_trim_trim(s: Seq<char>)
    ensures
        toml_key(trim(s)) == toml_key(s),
{
    crate::text::lemma_trim_idempotent(s);
}

fn has_name(v: &Vec<String>, n: &Vec<char>) -> (r: bool)
    ensures
        r == names_of(v@).contains(n@),
{
    let mut i: usize = 0;
    while i < v.len()
        invariant
            i <= v@.len(),
            forall|k: int| 0 <= k < i ==> #[trigger] v@[k]@ != n@,
        decreases v.len() - i,
    {
        if crate::text::vec_eq(&chars_of(v[i].as_str()), n) {
            proof {
                assert(v@[i as int]@ == n@);
            }
            return true;
        }
        i = i + 1;
    }
    false
}

/// The lines of `ls[i..]` that a profile keeps once the common
/// configuration's keys and tables are taken out: tables that the common
/// configuration has are skipped whole, and so are lines setting one of its
/// root keys.
pub open spec fn kept_lines(
    ls: Seq<Seq<char>>,
    i: int,
    skipping: bool,
    keys: Set<Seq<char>>,
    headers: Set<Seq<char>>,
) -> Seq<Seq<char>>
    decreases ls.len() - i,
{
    if i < 0 || i >= ls.len() {
        Seq::empty()
    } else {
        let t = trim(ls[i]);
        let skip_now = if is_header(t) {
            headers.contains(t)
        } else {
            skipping
        };
        if skip_now {
            kept_lines(ls, i + 1, skip_now, keys, headers)
        } else if toml_key(t) matches Some(k) && keys.contains(k) {
            kept_lines(ls, i + 1, skip_now, keys, headers)
        } else {
            seq![ls[i]] + kept_lines(ls, i + 1, skip_now, keys, headers)
        }
    }
}

/// What `strip_common_config_text_fallback` leaves of a profile's
/// configuration.
pub open spec fn stripped_config(config: Seq<char>, common: Seq<char>) -> Seq<char> {
    let keys = root_keys_from(lines(common), 0);
    let headers = headers_from(lines(common), 0);
    if keys.is_empty() && headers.is_empty() {
        with_newline(trim_end(config))
    } else {
        with_newline(trim_end(join(kept_lines(lines(config), 0, false, keys, headers), "\n"@)))
    }
}

/// `strip_common_config_text_fallback`: takes out of a profile's
/// configuration what the common configuration sets, line by line.
pub fn strip_common_config_text_fallback(config_contents: &str, common_config: &str) -> (r: String)
    ensures
        r@ == stripped_config(config_contents@, common_config@),
{
    let common = common_config_anchors(common_config);
    let ghost keys = root_keys_from(lines(common_config@), 0);
    let ghost headers = headers_from(lines(common_config@), 0);
    proof {
        if common.root_keys@.len() > 0 {
            assert(names_of(common.root_keys@).contains(common.root_keys@[0]@));
        }
        if common.table_headers@.len() > 0 {
            assert(names_of(common.table_headers@).contains(common.table_headers@[0]@));
        }
        if common.root_keys@.len() == 0 {
            assert(names_of(common.root_keys@) =~= Set::<Seq<char>>::empty());
        }
        if common.table_headers@.len() == 0 {
            assert(names_of(common.table_headers@) =~= Set::<Seq<char>>::empty());
        }
    }
    let config = chars_of(config_contents);
    if common.root_keys.len() == 0 && common.table_headers.len() == 0 {
        return string_from_chars(&newline_chars(&trim_end_vec(&config)));
    }
    let ls = lines_vec(&config);
    let ghost all = lines(config_contents@);
    let mut kept: Vec<Vec<char>> = Vec::new();
    let mut skipping = false;
    let mut i: usize = 0;
    proof {
        assert(crate::text::char_views(kept@) =~= Seq::<Seq<char>>::empty());
    }
    while i < ls.len()
        invariant
            i <= ls@.len(),
            ls@.len() == all.len(),
            forall|k: int| 0 <= k < ls@.len() ==> #[trigger] ls@[k]@ == all[k],
            names_of(common.root_keys@) == keys,
            names_of(common.table_headers@) == headers,
            crate::text::char_views(kept@) + kept_lines(all, i as int, skipping, keys, headers)
                == kept_lines(all, 0, false, keys, headers),
        decreases ls.len() - i,
    {
        let t = trim_vec(&ls[i]);
        let ghost was = skipping;
        let ghost before = crate::text::char_views(kept@);
        if is_header_chars(&t) {
            skipping = has_name(&common.table_headers, &t);
        }
        let mut keep = !skipping;
        if keep {
            match key_of_chars(&t) {
                Some(key) => {
                    if has_name(&common.root_keys, &chars_of(key.as_str())) {
                        keep = false;
                    }
                },
                None => {},
            }
            proof {
                lemma_trim_trim(ls@[i as int]@);
                crate::text::lemma_trim_idempotent(ls@[i as int]@);
            }
        }
        if keep {
            let mut line: Vec<char> = Vec::new();
            push_all(&mut line, &ls[i]);
            kept.push(line);
            proof {
                assert(crate::text::char_views(kept@) =~= before.push(all[i as int]));
                assert(before.push(all[i as int]) + kept_lines(all, i + 1, skipping, keys, headers)
                    =~= before + (seq![all[i as int]] + kept_lines(all, i + 1, skipping, keys, headers)));
            }
        }
        i = i + 1;
    }
    proof {
        assert(crate::text::char_views(kept@) + Seq::<Seq<char>>::empty() =~= crate::text::char_views(kept@));
    }
    let joined = crate::text::join_vec(&kept, "\n");
    string_from_chars(&newline_chars(&trim_end_vec(&joined)))
}

/// Tables of MCP servers, skills and plugins belong to the context
/// configuration.
pub open spec fn context_header(t: Seq<char>) -> bool {
    starts_with(t, "[mcp_servers."@) || starts_with(t, "[skills."@) || starts_with(t, "[plugins."@)
}

/// The lines of `ls[i..]` in context tables (`want_context`) or outside
/// them; a header line opens or closes a context table.
pub open spec fn section_lines(ls: Seq<Seq<char>>, i: int, in_context: bool, want_context: bool) -> Seq<
    Seq<char>,
>
    decreases ls.len() - i,
{
    if i < 0 || i >= ls.len() {
        Seq::empty()
    } else {
        let t = trim(ls[i]);
        let now = if is_header(t) {
            context_header(t)
        } else {
            in_context
        };
        if now == want_context {
            seq![ls[i]] + section_lines(ls, i + 1, now, want_context)
        } else {
            section_lines(ls, i + 1, now, want_context)
        }
    }
}

/// The trimmed sections that are not blank.
pub open spec fn nonblank_sections(parts: Seq<Seq<char>>) -> Seq<Seq<char>>
    decreases parts.len(),
{
    if parts.len() == 0 {
        Seq::empty()
    } else if trim(parts.last()).len() == 0 {
        nonblank_sections(parts.drop_last())
    } else {
        nonblank_sections(parts.drop_last()).push(trim(parts.last()))
    }
}

/// The sections joined by a blank line and ended by a newline, or nothing
/// when all are blank; this is the text the configuration normaliser gets.
pub open spec fn joined_sections(parts: Seq<Seq<char>>) -> Seq<char> {
    if nonblank_sections(parts).len() == 0 {
        Seq::empty()
    } else {
        join(nonblank_sections(parts), "\n\n"@) + seq!['\n']
    }
}

pub open spec fn string_views(v: Seq<String>) -> Seq<Seq<char>> {
    v.map_values(|s: String| s@)
}

/// `relay_join_config_sections` up to the normalisation of the TOML text,
/// which the caller applies.
pub fn relay_join_config_sections(sections: &Vec<String>) -> (r: String)
    ensures
        r@ == joined_sections(string_views(sections@)),
{
    let mut parts: Vec<Vec<char>> = Vec::new();
    let mut i: usize = 0;
    while i < sections.len()
        invariant
            i <= sections@.len(),
            crate::text::char_views(parts@) == nonblank_sections(string_views(sections@).take(i as int)),
        decreases sections.len() - i,
    {
        let t = trim_vec(&chars_of(sections[i].as_str()));
        proof {
            let v = string_views(sections@);
            assert(v.take(i + 1).drop_last() =~= v.take(i as int));
            assert(v.take(i + 1).last() == sections@[i as int]@);
        }
        if t.len() > 0 {
            let ghost before = parts@;
            parts.push(t);
            proof {
                assert(crate::text::char_views(parts@) =~= crate::text::char_views(before).push(t@));
            }
        }
        i = i + 1;
    }
    proof {
        assert(string_views(sections@).take(sections@.len() as int) =~= string_views(sections@));
    }
    if parts.len() == 0 {
        return String::new();
    }
    let mut out = crate::text::join_vec(&parts, "\n\n");
    out.push('\n');
    string_from_chars(&out)
}

fn join_section(ls: &Vec<Vec<char>>, want_context: bool) -> (r: Vec<char>)
    ensures
        r@ == join(section_lines(crate::text::char_views(ls@), 0, false, want_context), "\n"@),
{
    let ghost all = crate::text::char_views(ls@);
    let mut picked: Vec<Vec<char>> = Vec::new();
    let mut in_context = false;
    let mut i: usize = 0;
    proof {
        assert(crate::text::char_views(picked@) =~= Seq::<Seq<char>>::empty());
    }
    while i < ls.len()
        invariant
            i <= ls@.len(),
            all == crate::text::char_views(ls@),
            crate::text::char_views(picked@) + section_lines(all, i as int, in_context, want_context)
                == section_lines(all, 0, false, want_context),
        decreases ls.len() - i,
    {
        let t = trim_vec(&ls[i]);
        let ghost before = crate::text::char_views(picked@);
        if is_header_chars(&t) {
            in_context = starts_with_vec(&t, &chars_of("[mcp_servers.")) || starts_with_vec(
                &t,
                &chars_of("[skills."),
            ) || starts_with_vec(&t, &chars_of("[plugins."));
        }
        proof {
            assert(all[i as int] == ls@[i as int]@);
        }
        if in_context == want_context {
            let mut line: Vec<char> = Vec::new();
            push_all(&mut line, &ls[i]);
            picked.push(line);
            proof {
                assert(crate::text::char_views(picked@) =~= before.push(all[i as int]));
                assert(before.push(all[i as int]) + section_lines(all, i + 1, in_context, want_context)
                    =~= before + (seq![all[i as int]] + section_lines(all, i + 1, in_context, want_context)));
            }
        }
        i = i + 1;
    }
    proof {
        assert(crate::text::char_views(picked@) + Seq::<Seq<char>>::empty() =~= crate::text::char_views(picked@));
    }
    crate::text::join_vec(&picked, "\n")
}

/// `split_relay_context_config_sections`: the common part and the context
/// part (MCP server, skill and plugin tables) of a configuration, each as
/// `relay_join_config_sections` gives it for the one section.
pub fn split_relay_context_config_sections(config: &str) -> (r: (String, String))
    ensures
        r.0@ == joined_sections(seq![join(section_lines(lines(config@), 0, false, false), "\n"@)]),
        r.1@ == joined_sections(seq![join(section_lines(lines(config@), 0, false, true), "\n"@)]),
{
    let ls = lines_vec(&chars_of(config));
    proof {
        assert(crate::text::char_views(ls@) =~= lines(config@));
    }
    let common = join_section(&ls, false);
    let context = join_section(&ls, true);
    let mut a: Vec<String> = Vec::new();
    a.push(string_from_chars(&common));
    let mut b: Vec<String> = Vec::new();
    b.push(string_from_chars(&context));
    proof {
        assert(string_views(a@) =~= seq![common@]);
        assert(string_views(b@) =~= seq![context@]);
    }
    (relay_join_config_sections(&a), relay_join_config_sections(&b))
}

/// `relay_combined_common_config`: the common and context configurations
/// joined, up to normalisation.
pub fn relay_combined_common_config(common: &str, context: &str) -> (r: String)
    ensures
        r@ == joined_sections(seq![common@, context@]),
{
    let mut v: Vec<String> = Vec::new();
    v.push(crate::text::owned(common));
    v.push(crate::text::owned(context));
    proof {
        assert(string_views(v@) =~= seq![common@, context@]);
    }
    relay_join_config_sections(&v)
}


/// Whether the line after `ls[i..]` lies in a context table, starting with
/// `c`.
pub open spec fn context_after(ls: Seq<Seq<char>>, i: int, c: bool) -> bool
    decreases ls.len() - i,
{
    if i < 0 || i >= ls.len() {
        c
    } else {
        let t = trim(ls[i]);
        context_after(ls, i + 1, if is_header(t) { context_header(t) } else { c })
    }
}

proof fn lemma_section_shift(pre: Seq<Seq<char>>, rest: Seq<Seq<char>>, k: int, c: bool, w: bool)
    requires
        0 <= k,
    ensures
        section_lines(pre + rest, pre.len() + k, c, w) == section_lines(rest, k, c, w),
    decreases rest.len() - k,
{
    if k < rest.len() {
        assert((pre + rest)[pre.len() + k] == rest[k]);
        let t = trim(rest[k]);
        let now = if is_header(t) { context_header(t) } else { c };
        lemma_section_shift(pre, rest, k + 1, now, w);
    }
}

proof fn lemma_section_concat(pre: Seq<Seq<char>>, rest: Seq<Seq<char>>, j: int, c: bool, w: bool)
    requires
        0 <= j <= pre.len(),
    ensures
        section_lines(pre + rest, j, c, w) == section_lines(pre, j, c, w) + section_lines(
            rest,
            0,
            context_after(pre, j, c),
            w,
        ),
    decreases pre.len() - j,
{
    if j == pre.len() {
        lemma_section_shift(pre, rest, 0, c, w);
        assert(section_lines(pre, j, c, w) == Seq::<Seq<char>>::empty());
        assert(Seq::<Seq<char>>::empty() + section_lines(rest, 0, c, w) =~= section_lines(rest, 0, c, w));
    } else {
        assert((pre + rest)[j] == pre[j]);
        let t = trim(pre[j]);
        let now = if is_header(t) { context_header(t) } else { c };
        lemma_section_concat(pre, rest, j + 1, now, w);
        if now == w {
            assert(seq![pre[j]] + (section_lines(pre, j + 1, now, w) + section_lines(
                rest,
                0,
                context_after(pre, j + 1, now),
                w,
            )) =~= seq![pre[j]] + section_lines(pre, j + 1, now, w) + section_lines(
                rest,
                0,
                context_after(pre, j + 1, now),
                w,
            ));
        }
    }
}

proof fn lemma_section_table(x: Seq<Seq<char>>, i: int, w: bool)
    requires
        1 <= i <= x.len(),
        forall|k: int| 1 <= k < x.len() ==> !is_header(#[trigger] trim(x[k])),
    ensures
        section_lines(x, i, true, w) == if w { x.skip(i) } else { Seq::<Seq<char>>::empty() },
    decreases x.len() - i,
{
    if i < x.len() {
        lemma_section_table(x, i + 1, w);
        assert(!is_header(trim(x[i])));
        if w {
            assert(seq![x[i]] + x.skip(i + 1) =~= x.skip(i));
        }
    } else {
        assert(x.skip(i) =~= Seq::<Seq<char>>::empty());
    }
}

/// MCP server, skill and plugin tables are context: a table whose trimmed
/// header starts with `[mcp_servers.`, `[skills.` or `[plugins.` goes, with
/// its lines, to the context part and never to the common part, whatever
/// comes before it.
pub proof fn law_context_tables(pre: Seq<Seq<char>>, header: Seq<char>, body: Seq<Seq<char>>)
    requires
        is_header(trim(header)),
        starts_with(trim(header), "[mcp_servers."@) || starts_with(trim(header), "[skills."@)
            || starts_with(trim(header), "[plugins."@),
        forall|k: int| 0 <= k < body.len() ==> !is_header(#[trigger] trim(body[k])),
    ensures
        section_lines(pre + (seq![header] + body), 0, false, false) == section_lines(pre, 0, false, false),
        section_lines(pre + (seq![header] + body), 0, false, true) == section_lines(pre, 0, false, true)
            + seq![header] + body,
{
    let x = seq![header] + body;
    assert forall|k: int| 1 <= k < x.len() implies !is_header(#[trigger] trim(x[k])) by {
        assert(x[k] == body[k - 1]);
    }
    assert(x[0] == header);
    assert(context_header(trim(header)));
    lemma_section_concat(pre, x, 0, false, false);
    lemma_section_concat(pre, x, 0, false, true);
    let c = context_after(pre, 0, false);
    lemma_section_table(x, 1, false);
    lemma_section_table(x, 1, true);
    assert(section_lines(x, 0, c, false) == Seq::<Seq<char>>::empty());
    assert(x.skip(1) =~= body);
    assert(section_lines(x, 0, c, true) == seq![header] + body);
    assert(section_lines(pre, 0, false, false) + Seq::<Seq<char>>::empty() =~= section_lines(pre, 0, false, false));
    assert(section_lines(pre, 0, false, true) + (seq![header] + body) =~= section_lines(pre, 0, false, true) + seq![header] + body);
}

/// Whether `ls[i..]` ends inside a skipped table, starting with `skipping`.
pub open spec fn skipping_after(ls: Seq<Seq<char>>, i: int, skipping: bool, headers: Set<Seq<char>>) -> bool
    decreases ls.len() - i,
{
    if i < 0 || i >= ls.len() {
        skipping
    } else {
        let t = trim(ls[i]);
        skipping_after(ls, i + 1, if is_header(t) { headers.contains(t) } else { skipping }, headers)
    }
}

proof fn lemma_kept_shift(
    pre: Seq<Seq<char>>,
    rest: Seq<Seq<char>>,
    k: int,
    c: bool,
    keys: Set<Seq<char>>,
    headers: Set<Seq<char>>,
)
    requires
        0 <= k,
    ensures
        kept_lines(pre + rest, pre.len() + k, c, keys, headers) == kept_lines(rest, k, c, keys, headers),
    decreases rest.len() - k,
{
    if k < rest.len() {
        assert((pre + rest)[pre.len() + k] == rest[k]);
        let t = trim(rest[k]);
        let now = if is_header(t) { headers.contains(t) } else { c };
        lemma_kept_shift(pre, rest, k + 1, now, keys, headers);
    }
}

proof fn lemma_kept_concat(
    pre: Seq<Seq<char>>,
    rest: Seq<Seq<char>>,
    j: int,
    c: bool,
    keys: Set<Seq<char>>,
    headers: Set<Seq<char>>,
)
    requires
        0 <= j <= pre.len(),
    ensures
        kept_lines(pre + rest, j, c, keys, headers) == kept_lines(pre, j, c, keys, headers) + kept_lines(
            rest,
            0,
            skipping_after(pre, j, c, headers),
            keys,
            headers,
        ),
    decreases pre.len() - j,
{
    if j == pre.len() {
        lemma_kept_shift(pre, rest, 0, c, keys, headers);
        assert(kept_lines(pre, j, c, keys, headers) == Seq::<Seq<char>>::empty());
        assert(Seq::<Seq<char>>::empty() + kept_lines(rest, 0, c, keys, headers) =~= kept_lines(
            rest,
            0,
            c,
            keys,
            headers,
        ));
    } else {
        assert((pre + rest)[j] == pre[j]);
        let t = trim(pre[j]);
        let now = if is_header(t) { headers.contains(t) } else { c };
        lemma_kept_concat(pre, rest, j + 1, now, keys, headers);
        let tail = kept_lines(rest, 0, skipping_after(pre, j + 1, now, headers), keys, headers);
        assert(seq![pre[j]] + (kept_lines(pre, j + 1, now, keys, headers) + tail) =~= seq![pre[j]]
            + kept_lines(pre, j + 1, now, keys, headers) + tail);
    }
}

proof fn lemma_kept_table(x: Seq<Seq<char>>, i: int, keys: Set<Seq<char>>, headers: Set<Seq<char>>)
    requires
        1 <= i <= x.len(),
        forall|k: int| 1 <= k < x.len() ==> !is_header(#[trigger] trim(x[k])),
    ensures
        kept_lines(x, i, true, keys, headers) == Seq::<Seq<char>>::empty(),
    decreases x.len() - i,
{
    if i < x.len() {
        lemma_kept_table(x, i + 1, keys, headers);
        assert(!is_header(trim(x[i])));
    }
}

/// A table that the common configuration has is taken out of a profile's
/// configuration whole, header and lines, whatever the common
/// configuration's root keys: what is left is what the lines before it
/// leave, and a configuration made only of that table leaves nothing.
pub proof fn law_common_tables_are_stripped(
    config: Seq<char>,
    common: Seq<char>,
    pre: Seq<Seq<char>>,
    header: Seq<char>,
    body: Seq<Seq<char>>,
)
    requires
        lines(config) == pre + (seq![header] + body),
        is_header(trim(header)),
        headers_from(lines(common), 0).contains(trim(header)),
        forall|k: int| 0 <= k < body.len() ==> !is_header(#[trigger] trim(body[k])),
    ensures
        stripped_config(config, common) == with_newline(
            trim_end(
                join(
                    kept_lines(
                        pre,
                        0,
                        false,
                        root_keys_from(lines(common), 0),
                        headers_from(lines(common), 0),
                    ),
                    "\n"@,
                ),
            ),
        ),
        pre.len() == 0 ==> stripped_config(config, common) == Seq::<char>::empty(),
{
    let keys = root_keys_from(lines(common), 0);
    let headers = headers_from(lines(common), 0);
    assert(!headers.is_empty());
    let x = seq![header] + body;
    assert forall|k: int| 1 <= k < x.len() implies !is_header(#[trigger] trim(x[k])) by {
        assert(x[k] == body[k - 1]);
    }
    assert(x[0] == header);
    lemma_kept_concat(pre, x, 0, false, keys, headers);
    let c = skipping_after(pre, 0, false, headers);
    lemma_kept_table(x, 1, keys, headers);
    assert(kept_lines(x, 0, c, keys, headers) == Seq::<Seq<char>>::empty());
    assert(kept_lines(pre, 0, false, keys, headers) + Seq::<Seq<char>>::empty() =~= kept_lines(
        pre,
        0,
        false,
        keys,
        headers,
    ));
    if pre.len() == 0 {
        assert(kept_lines(pre, 0, false, keys, headers) == Seq::<Seq<char>>::empty());
        assert(join(Seq::<Seq<char>>::empty(), "\n"@) == Seq::<char>::empty());
        assert(trim_end(Seq::<char>::empty()) == Seq::<char>::empty());
        assert(trim(Seq::<char>::empty()).len() == 0);
    }
}

} // verus!
