//! The registry of Zed remote projects: identities, labels, merging of
//! candidates found in several places, and the recent-projects list.
use vstd::prelude::*;
use vstd::string::StringSliceAdditionalSpecFns;
use crate::json::{JsonValue, as_array, as_str, get, get_opt, member, string_value, string_value_of};
use crate::text::{
    chars_of, decimal, find_char, owned, push_all, push_decimal, push_range, rfind_char,
    starts_with, starts_with_vec, string_from_chars, string_from_range, trim, trim_end_char,
    trim_end_char_len, trim_vec, vec_eq,
};
use crate::zed::SshTarget;

verus! {

/// Where a remote project candidate was found.
#[derive(Debug, Clone, Copy, PartialEq, Eq)]
pub enum ZedRemoteProjectSource {
    CurrentThread,
    CodexRemoteProject,
    ThreadWorkspaceHint,
    SqliteThreadCwd,
    Recent,
}

/// A remote project that Zed can open.
#[derive(Debug)]
pub struct ZedRemoteProject {
    pub id: String,
    pub label: String,
    pub host_id: String,
    pub ssh: SshTarget,
    pub path: String,
    pub url: String,
    pub source: ZedRemoteProjectSource,
    pub last_opened_at_ms: Option<i64>,
    pub is_current: bool,
}

/// Lower ranks win when two candidates describe the same project.
pub open spec fn priority(source: ZedRemoteProjectSource) -> u8 {
    match source {
        ZedRemoteProjectSource::CurrentThread => 0,
        ZedRemoteProjectSource::CodexRemoteProject => 1,
        ZedRemoteProjectSource::ThreadWorkspaceHint => 2,
        ZedRemoteProjectSource::SqliteThreadCwd => 3,
        ZedRemoteProjectSource::Recent => 4,
    }
}

/// The rank of a source: the current thread first, the recent list last.
pub fn source_priority(source: ZedRemoteProjectSource) -> (r: u8)
    ensures
        r == priority(source),
{
    match source {
        ZedRemoteProjectSource::CurrentThread => 0,
        ZedRemoteProjectSource::CodexRemoteProject => 1,
        ZedRemoteProjectSource::ThreadWorkspaceHint => 2,
        ZedRemoteProjectSource::SqliteThreadCwd => 3,
        ZedRemoteProjectSource::Recent => 4,
    }
}

pub open spec fn fnv_offset() -> u64 {
    0xcbf29ce484222325u64
}

pub open spec fn fnv_prime() -> u64 {
    0x100000001b3u64
}

/// 64-bit FNV-1a over `bytes`.
pub open spec fn fnv1a(bytes: Seq<u8>) -> u64
    decreases bytes.len(),
{
    if bytes.len() == 0 {
        fnv_offset()
    } else {
        vstd::wrapping::u64_specs::wrapping_mul(
            fnv1a(bytes.drop_last()) ^ (bytes.last() as u64),
            fnv_prime(),
        )
    }
}

/// The FNV-1a hash of the UTF-8 bytes of `value`.
pub fn stable_hash(value: &str) -> (h: u64)
    ensures
        h == fnv1a(value.spec_bytes()),
{
    let bytes = value.as_bytes();
    let mut hash: u64 = 0xcbf29ce484222325u64;
    let mut i: usize = 0;
    proof {
        assert(bytes@.take(0) == Seq::<u8>::empty());
    }
    while i < bytes.len()
        invariant
            i <= bytes@.len(),
            bytes@ == value.spec_bytes(),
            hash == fnv1a(bytes@.take(i as int)),
        decreases bytes.len() - i,
    {
        let b = bytes[i];
        hash = hash ^ (b as u64);
        hash = hash.wrapping_mul(0x100000001b3u64);
        proof {
            assert(bytes@.take(i + 1).drop_last() == bytes@.take(i as int));
            assert(bytes@.take(i + 1).last() == b);
        }
        i = i + 1;
    }
    proof {
        assert(bytes@.take(bytes@.len() as int) == bytes@);
    }
    hash
}

pub open spec fn hex_lower(d: u64) -> char {
    if d < 10 {
        ((d + 48) as u8) as char
    } else {
        ((d + 87) as u8) as char
    }
}

/// `format!("{:016x}", h)`: sixteen lower-case hex digits, most significant first.
pub open spec fn hex16(h: u64) -> Seq<char> {
    Seq::new(16, |k: int| hex_lower((h >> ((15 - k) * 4) as u64) & 15))
}

fn hex_lower_digit(d: u64) -> (c: char)
    requires
        d < 16,
    ensures
        c == hex_lower(d),
{
    if d < 10 {
        ((d as u8) + 48) as char
    } else {
        ((d as u8) + 87) as char
    }
}

/// Appends `hex16(h)` to `out`.
pub fn push_hex16(out: &mut Vec<char>, h: u64)
    ensures
        final(out)@ == old(out)@ + hex16(h),
{
    let mut k: u64 = 0;
    while k < 16
        invariant
            k <= 16,
            out@ == old(out)@ + hex16(h).take(k as int),
        decreases 16 - k,
    {
        let shift = (15 - k) * 4;
        let d = (h >> shift) & 15;
        proof {
            assert(d < 16) by (bit_vector)
                requires
                    d == (h >> shift) & 15,
            ;
            assert(hex16(h).take(k + 1) == hex16(h).take(k as int).push(hex16(h)[k as int]));
        }
        out.push(hex_lower_digit(d));
        k = k + 1;
    }
    proof {
        assert(hex16(h).take(16) == hex16(h));
    }
}

/// The optional port as `to_string` writes it, or nothing.
pub open spec fn port_text(p: Option<u16>) -> Seq<char> {
    match p {
        Some(p) => decimal(p as nat),
        None => Seq::empty(),
    }
}

/// The text `user|host|port|path` (all trimmed) that identifies a project.
pub open spec fn project_key(user: Seq<char>, host: Seq<char>, port: Option<u16>, path: Seq<char>) -> Seq<
    char,
> {
    trim(user) + seq!['|'] + trim(host) + seq!['|'] + port_text(port) + seq!['|'] + trim(path)
}

/// The identifier of the project at `path` on `user@host:port`.
pub open spec fn spec_project_id(user: Seq<char>, host: Seq<char>, port: Option<u16>, path: Seq<char>) -> Seq<
    char,
> {
    "zed-remote-project:"@ + hex16(fnv1a(vstd::utf8::encode_utf8(project_key(user, host, port, path))))
}

/// The stable identifier of a project: a hash of its user, host, port and path.
pub fn project_id(target: &SshTarget, path: &str) -> (r: String)
    ensures
        r@ == spec_project_id(target.user@, target.host@, target.port, path@),
{
    let mut key: Vec<char> = Vec::new();
    let u = trim_vec(&chars_of(target.user.as_str()));
    let h = trim_vec(&chars_of(target.host.as_str()));
    let p = trim_vec(&chars_of(path));
    push_all(&mut key, &u);
    key.push('|');
    push_all(&mut key, &h);
    key.push('|');
    match target.port {
        Some(port) => push_decimal(&mut key, port as u64),
        None => {},
    }
    key.push('|');
    push_all(&mut key, &p);
    proof {
        assert(key@ == project_key(target.user@, target.host@, target.port, path@));
    }
    let key_string = string_from_chars(&key);
    let hash = stable_hash(key_string.as_str());
    let mut out = chars_of("zed-remote-project:");
    push_hex16(&mut out, hash);
    string_from_chars(&out)
}

/// The last path segment after trailing slashes are dropped; the path itself
/// when that segment is empty.
pub open spec fn spec_label_from_path(path: Seq<char>) -> Seq<char> {
    let t = trim_end_char(path, '/');
    let last = match rfind_char(t, '/') {
        Some(i) => t.skip(i + 1),
        None => t,
    };
    if last.len() > 0 {
        last
    } else {
        path
    }
}

/// Index of the last `c` in `v[..n]`.
fn rfind_char_in(v: &Vec<char>, n: usize, c: char) -> (r: Option<usize>)
    requires
        n <= v.len(),
    ensures
        match r {
            Some(i) => rfind_char(v@.take(n as int), c) == Some(i as int) && i < n,
            None => rfind_char(v@.take(n as int), c) is None,
        },
{
    let mut j = n;
    while j > 0
        invariant
            j <= n <= v.len(),
            rfind_char(v@.take(n as int), c) == rfind_char(v@.take(j as int), c),
        decreases j,
    {
        if v[j - 1] == c {
            return Some(j - 1);
        }
        proof {
            assert(v@.take(j as int).drop_last() == v@.take(j - 1));
        }
        j = j - 1;
    }
    None
}

/// A display label for a project at `path`: its last path segment.
pub fn label_from_path(path: &str) -> (r: String)
    ensures
        r@ == spec_label_from_path(path@),
{
    let v = chars_of(path);
    let n = trim_end_char_len(&v, '/');
    let start = match rfind_char_in(&v, n, '/') {
        Some(i) => i + 1,
        None => 0,
    };
    proof {
        let t = v@.take(n as int);
        match rfind_char(t, '/') {
            Some(i) => {
                assert(t.skip(i + 1) == v@.subrange(start as int, n as int));
            },
            None => {
                assert(t == v@.subrange(0, n as int));
            },
        }
    }
    if start < n {
        string_from_range(&v, start, n)
    } else {
        owned(path)
    }
}

/// `label` when it is not empty, the label derived from `path` otherwise.
pub open spec fn label_or_path(label: Seq<char>, path: Seq<char>) -> Seq<char> {
    if label.len() > 0 {
        label
    } else {
        spec_label_from_path(path)
    }
}

/// Assembles a project from the parts that describe it.
pub fn project_from_parts(
    host_id: &str,
    target: SshTarget,
    path: &str,
    url: &str,
    label: String,
    source: ZedRemoteProjectSource,
    last_opened_at_ms: Option<i64>,
    is_current: bool,
) -> (r: ZedRemoteProject)
    ensures
        r.id@ == spec_project_id(target.user@, target.host@, target.port, path@),
        r.label@ == label_or_path(label@, path@),
        r.host_id@ == trim(host_id@),
        r.ssh == target,
        r.path@ == trim(path@),
        r.url@ == url@,
        r.source == source,
        r.last_opened_at_ms == last_opened_at_ms,
        r.is_current == is_current,
{
    let id = project_id(&target, path);
    let label = if label.as_str().is_empty() {
        label_from_path(path)
    } else {
        label
    };
    let host = crate::text::trim_str(host_id);
    let p = crate::text::trim_str(path);
    ZedRemoteProject {
        id,
        label,
        host_id: host,
        ssh: target,
        path: p,
        url: owned(url),
        source,
        last_opened_at_ms,
        is_current,
    }
}

/// Index of the first project whose id is `id`.
pub open spec fn index_of_id(ps: Seq<ZedRemoteProject>, id: Seq<char>) -> Option<int>
    decreases ps.len(),
{
    if ps.len() == 0 {
        None
    } else if ps[0].id@ == id {
        Some(0)
    } else {
        match index_of_id(ps.drop_first(), id) {
            Some(i) => Some(i + 1),
            None => None,
        }
    }
}

/// The later of two optional timestamps.
pub open spec fn latest(a: Option<i64>, b: Option<i64>) -> Option<i64> {
    match (a, b) {
        (Some(x), Some(y)) => Some(if x >= y {
            x
        } else {
            y
        }),
        (Some(x), None) => Some(x),
        (None, Some(y)) => Some(y),
        (None, None) => None,
    }
}

/// `existing` after a second candidate `p` for the same project was found:
/// the better-ranked source supplies source, label and host id; the later
/// open time and either current flag are kept.
pub open spec fn merged(existing: ZedRemoteProject, p: ZedRemoteProject) -> ZedRemoteProject {
    let better = priority(p.source) < priority(existing.source);
    ZedRemoteProject {
        source: if better {
            p.source
        } else {
            existing.source
        },
        label: if better {
            p.label
        } else {
            existing.label
        },
        host_id: if better {
            p.host_id
        } else {
            existing.host_id
        },
        last_opened_at_ms: latest(existing.last_opened_at_ms, p.last_opened_at_ms),
        is_current: existing.is_current || p.is_current,
        ..existing
    }
}

/// The project list after adding candidate `p`.
pub open spec fn pushed(ps: Seq<ZedRemoteProject>, p: ZedRemoteProject) -> Seq<ZedRemoteProject> {
    match index_of_id(ps, p.id@) {
        Some(i) => ps.update(i, merged(ps[i], p)),
        None => ps.push(p),
    }
}

proof fn lemma_index_of_id(ps: Seq<ZedRemoteProject>, id: Seq<char>)
    ensures
        match index_of_id(ps, id) {
            Some(i) => 0 <= i < ps.len() && ps[i].id@ == id && forall|j: int|
                0 <= j < i ==> ps[j].id@ != id,
            None => forall|j: int| 0 <= j < ps.len() ==> ps[j].id@ != id,
        },
    decreases ps.len(),
{
    if ps.len() > 0 && ps[0].id@ != id {
        lemma_index_of_id(ps.drop_first(), id);
        assert forall|j: int| 1 <= j < ps.len() implies ps[j] == ps.drop_first()[j - 1] by {}
    }
}

/// Index of the first project with id `id`.
pub fn find_project(projects: &Vec<ZedRemoteProject>, id: &String) -> (r: Option<usize>)
    ensures
        match r {
            Some(i) => index_of_id(projects@, id@) == Some(i as int) && i < projects@.len(),
            None => index_of_id(projects@, id@) is None,
        },
{
    let mut i: usize = 0;
    proof {
        assert(projects@.skip(0) == projects@);
    }
    while i < projects.len()
        invariant
            i <= projects.len(),
            forall|j: int| 0 <= j < i ==> projects@[j].id@ != id@,
        decreases projects.len() - i,
    {
        if projects[i].id == *id {
            proof {
                lemma_index_of_id(projects@, id@);
            }
            return Some(i);
        }
        i = i + 1;
    }
    proof {
        lemma_index_of_id(projects@, id@);
    }
    None
}

fn merge_into(existing: ZedRemoteProject, p: ZedRemoteProject) -> (r: ZedRemoteProject)
    ensures
        r == merged(existing, p),
{
    let better = source_priority(p.source) < source_priority(existing.source);
    let last = match (existing.last_opened_at_ms, p.last_opened_at_ms) {
        (Some(x), Some(y)) => Some(if x >= y {
            x
        } else {
            y
        }),
        (Some(x), None) => Some(x),
        (None, Some(y)) => Some(y),
        (None, None) => None,
    };
    let is_current = existing.is_current || p.is_current;
    if better {
        ZedRemoteProject {
            source: p.source,
            label: p.label,
            host_id: p.host_id,
            last_opened_at_ms: last,
            is_current,
            ..existing
        }
    } else {
        ZedRemoteProject { last_opened_at_ms: last, is_current, ..existing }
    }
}

/// Adds a candidate: a project with the same id is merged (see [`merged`]),
/// otherwise the candidate is appended.
pub fn push_project(projects: &mut Vec<ZedRemoteProject>, project: ZedRemoteProject)
    ensures
        final(projects)@ == pushed(old(projects)@, project),
{
    match find_project(projects, &project.id) {
        Some(i) => {
            let existing = projects.remove(i);
            let m = merge_into(existing, project);
            projects.insert(i, m);
            proof {
                assert(projects@ == old(projects)@.update(i as int, m));
            }
        },
        None => {
            projects.push(project);
        },
    }
}

/// Distinct ids: no two projects share an id.
pub open spec fn ids_distinct(ps: Seq<ZedRemoteProject>) -> bool {
    forall|i: int, j: int| 0 <= i < j < ps.len() ==> ps[i].id@ != ps[j].id@
}

/// Adding a candidate keeps ids distinct, and afterwards exactly one project
/// carries the candidate's id.
pub proof fn law_push_project_keeps_ids_distinct(ps: Seq<ZedRemoteProject>, p: ZedRemoteProject)
    requires
        ids_distinct(ps),
    ensures
        ids_distinct(pushed(ps, p)),
        index_of_id(pushed(ps, p), p.id@) is Some,
        pushed(ps, p).len() == ps.len() + (if index_of_id(ps, p.id@) is Some {
            0int
        } else {
            1int
        }),
{
    lemma_index_of_id(ps, p.id@);
    let r = pushed(ps, p);
    lemma_index_of_id(r, p.id@);
    match index_of_id(ps, p.id@) {
        Some(i) => {
            assert(r[i].id@ == p.id@);
        },
        None => {
            assert(r[ps.len() as int].id@ == p.id@);
        },
    }
}

/// `remote_path` is `project_path` (without trailing slashes) or lies below it.
pub open spec fn path_matches(remote_path: Seq<char>, project_path: Seq<char>) -> bool {
    let pp = trim_end_char(project_path, '/');
    pp.len() > 0 && (remote_path == pp || (starts_with(remote_path, pp) && remote_path.len()
        > pp.len() && remote_path[pp.len() as int] == '/'))
}

/// Whether `remote_path` is the project directory or a path inside it.
pub fn project_path_matches(remote_path: &str, project_path: &str) -> (r: bool)
    ensures
        r == path_matches(remote_path@, project_path@),
{
    let pv = chars_of(project_path);
    let n = trim_end_char_len(&pv, '/');
    if n == 0 {
        return false;
    }
    let mut pp = Vec::new();
    push_range(&mut pp, &pv, 0, n);
    proof {
        assert(pv@.subrange(0, n as int) == pv@.take(n as int));
    }
    let rv = chars_of(remote_path);
    if vec_eq(&rv, &pp) {
        return true;
    }
    starts_with_vec(&rv, &pp) && rv.len() > n && rv[n] == '/'
}

/// Removes every project with id `target_id`; returns how many were removed.
pub fn forget_project(projects: &mut Vec<ZedRemoteProject>, target_id: &str) -> (removed: usize)
    ensures
        final(projects)@ == old(projects)@.filter(|p: ZedRemoteProject| p.id@ != target_id@),
        removed == old(projects)@.len() - final(projects)@.len(),
{
    let ghost pred = |p: ZedRemoteProject| p.id@ != target_id@;
    let tid = chars_of(target_id);
    let mut kept: Vec<ZedRemoteProject> = Vec::new();
    let before = projects.len();
    let ghost orig = projects@;
    let mut i: usize = 0;
    while projects.len() > 0
        invariant
            i + projects@.len() == orig.len(),
            orig.len() <= usize::MAX,
            projects@ == orig.skip(i as int),
            kept@ == orig.take(i as int).filter(pred),
            tid@ == target_id@,
            pred == (|p: ZedRemoteProject| p.id@ != target_id@),
        decreases projects.len(),
    {
        let p = projects.remove(0);
        proof {
            assert(orig.take(i + 1).drop_last() == orig.take(i as int));
            assert(orig.take(i + 1).last() == p);
            reveal_with_fuel(Seq::filter, 1);
            broadcast use vstd::seq_lib::group_filter_ensures;
            assert(orig.skip(i + 1) == orig.skip(i as int).drop_first());
        }
        let pid = chars_of(p.id.as_str());
        if !vec_eq(&pid, &tid) {
            kept.push(p);
        }
        i = i + 1;
    }
    proof {
        assert(orig.take(orig.len() as int) == orig);
    }
    let removed = before - kept.len();
    *projects = kept;
    removed
}


/// When a project was last opened, 0 if never.
pub open spec fn recency(p: ZedRemoteProject) -> i64 {
    match p.last_opened_at_ms {
        Some(t) => t,
        None => 0,
    }
}

/// `p` placed into a list ordered from most to least recent: after every
/// project at least as recent, before the first one that is older.
pub open spec fn insert_by_recency(sorted: Seq<ZedRemoteProject>, p: ZedRemoteProject) -> Seq<
    ZedRemoteProject,
>
    decreases sorted.len(),
{
    if sorted.len() == 0 {
        seq![p]
    } else if recency(sorted[0]) < recency(p) {
        seq![p] + sorted
    } else {
        seq![sorted[0]] + insert_by_recency(sorted.drop_first(), p)
    }
}

/// A stable sort from most to least recent: projects opened at the same time
/// keep their order.
pub open spec fn by_recency(ps: Seq<ZedRemoteProject>) -> Seq<ZedRemoteProject>
    decreases ps.len(),
{
    if ps.len() == 0 {
        Seq::empty()
    } else {
        insert_by_recency(by_recency(ps.drop_last()), ps.last())
    }
}

/// The recent-projects list keeps at most this many projects.
pub open spec fn max_recent_projects() -> nat {
    100
}

/// The registry after remembering `p`: merged in, sorted from most to least
/// recent, and cut to `max_recent_projects` entries.
pub open spec fn remembered(ps: Seq<ZedRemoteProject>, p: ZedRemoteProject) -> Seq<ZedRemoteProject> {
    let sorted = by_recency(pushed(ps, p));
    if sorted.len() > max_recent_projects() {
        sorted.take(max_recent_projects() as int)
    } else {
        sorted
    }
}

pub open spec fn recent_first(ps: Seq<ZedRemoteProject>) -> bool {
    forall|i: int, j: int| 0 <= i < j < ps.len() ==> recency(ps[i]) >= recency(ps[j])
}

proof fn lemma_insert_by_recency_at(sorted: Seq<ZedRemoteProject>, p: ZedRemoteProject, j: int)
    requires
        0 <= j <= sorted.len(),
        forall|k: int| 0 <= k < j ==> recency(#[trigger] sorted[k]) >= recency(p),
        j < sorted.len() ==> recency(sorted[j]) < recency(p),
    ensures
        insert_by_recency(sorted, p) == sorted.insert(j, p),
    decreases sorted.len(),
{
    if sorted.len() == 0 {
        assert(sorted.insert(j, p) =~= seq![p]);
    } else if j == 0 {
        assert(sorted.insert(0, p) =~= seq![p] + sorted);
    } else {
        let rest = sorted.drop_first();
        assert forall|k: int| 0 <= k < j - 1 implies recency(#[trigger] rest[k]) >= recency(p) by {
            assert(rest[k] == sorted[k + 1]);
        }
        if j - 1 < rest.len() {
            assert(rest[j - 1] == sorted[j]);
        }
        assert(recency(sorted[0]) >= recency(p));
        lemma_insert_by_recency_at(rest, p, j - 1);
        assert(sorted.insert(j, p) =~= seq![sorted[0]] + rest.insert(j - 1, p));
    }
}

proof fn lemma_insert_by_recency_sorted(sorted: Seq<ZedRemoteProject>, p: ZedRemoteProject)
    requires
        recent_first(sorted),
    ensures
        recent_first(insert_by_recency(sorted, p)),
        insert_by_recency(sorted, p).len() == sorted.len() + 1,
        forall|k: int|
            0 <= k < insert_by_recency(sorted, p).len() ==> #[trigger] insert_by_recency(sorted, p)[k]
                == p || exists|m: int| 0 <= m < sorted.len() && insert_by_recency(sorted, p)[k]
                == #[trigger] sorted[m],
    decreases sorted.len(),
{
    let r = insert_by_recency(sorted, p);
    if sorted.len() == 0 {
    } else if recency(sorted[0]) < recency(p) {
        assert forall|k: int| #![trigger r[k]] 0 < k < r.len() implies exists|m: int|
            0 <= m < sorted.len() && r[k] == #[trigger] sorted[m] by {
            assert(r[k] == sorted[k - 1]);
        }
    } else {
        let rest = sorted.drop_first();
        assert forall|i: int, j: int| 0 <= i < j < rest.len() implies recency(rest[i]) >= recency(
            rest[j],
        ) by {
            assert(rest[i] == sorted[i + 1] && rest[j] == sorted[j + 1]);
        }
        lemma_insert_by_recency_sorted(rest, p);
        let ir = insert_by_recency(rest, p);
        assert(r == seq![sorted[0]] + ir);
        assert forall|k: int| #![trigger r[k]] 0 < k < r.len() implies r[k] == p || exists|m: int|
            0 <= m < sorted.len() && r[k] == #[trigger] sorted[m] by {
            assert(r[k] == ir[k - 1]);
            if ir[k - 1] != p {
                let m = choose|m: int| 0 <= m < rest.len() && ir[k - 1] == #[trigger] rest[m];
                assert(rest[m] == sorted[m + 1]);
            }
        }
        assert forall|i: int, j: int| 0 <= i < j < r.len() implies recency(r[i]) >= recency(r[j]) by {
            if i == 0 {
                assert(r[j] == ir[j - 1]);
                if ir[j - 1] != p {
                    let m = choose|m: int| 0 <= m < rest.len() && ir[j - 1] == #[trigger] rest[m];
                    assert(rest[m] == sorted[m + 1]);
                }
            } else {
                assert(r[i] == ir[i - 1] && r[j] == ir[j - 1]);
            }
        }
    }
}

/// The order `by_recency` gives runs from most to least recent.
pub proof fn lemma_by_recency_sorted(ps: Seq<ZedRemoteProject>)
    ensures
        recent_first(by_recency(ps)),
        by_recency(ps).len() == ps.len(),
    decreases ps.len(),
{
    if ps.len() > 0 {
        lemma_by_recency_sorted(ps.drop_last());
        lemma_insert_by_recency_sorted(by_recency(ps.drop_last()), ps.last());
    }
}

fn recency_of(p: &ZedRemoteProject) -> (r: i64)
    ensures
        r == recency(*p),
{
    match p.last_opened_at_ms {
        Some(t) => t,
        None => 0,
    }
}

/// Sorts projects from most to least recent, keeping the order of projects
/// opened at the same time.
pub fn sort_by_recency(projects: Vec<ZedRemoteProject>) -> (r: Vec<ZedRemoteProject>)
    ensures
        r@ == by_recency(projects@),
{
    let mut rest = projects;
    let ghost all = rest@;
    assert(all.len() == rest.len());
    let mut out: Vec<ZedRemoteProject> = Vec::new();
    let mut n: usize = 0;
    while rest.len() > 0
        invariant
            n + rest@.len() == all.len(),
            all.len() <= usize::MAX,
            rest@ == all.skip(n as int),
            out@ == by_recency(all.take(n as int)),
        decreases rest.len(),
    {
        let p = rest.remove(0);
        let t = recency_of(&p);
        let mut j: usize = 0;
        while j < out.len() && recency_of(&out[j]) >= t
            invariant
                j <= out@.len(),
                t == recency(p),
                forall|k: int| 0 <= k < j ==> recency(#[trigger] out@[k]) >= t,
            decreases out.len() - j,
        {
            j = j + 1;
        }
        proof {
            lemma_insert_by_recency_at(out@, p, j as int);
            assert(all.take(n + 1).drop_last() =~= all.take(n as int));
            assert(all.take(n + 1).last() == p);
            assert(rest@ =~= all.skip(n + 1));
        }
        out.insert(j, p);
        n = n + 1;
    }
    proof {
        assert(all.take(n as int) =~= all);
    }
    out
}

/// Remembers an opened project in the recent-projects list: merged in like
/// any candidate, then the list sorted from most to least recent and cut to
/// `max_recent_projects` entries.
pub fn remember_project(projects: &mut Vec<ZedRemoteProject>, project: ZedRemoteProject)
    ensures
        final(projects)@ == remembered(old(projects)@, project),
{
    push_project(projects, project);
    let mut taken: Vec<ZedRemoteProject> = Vec::new();
    std::mem::swap(&mut taken, projects);
    let mut sorted = sort_by_recency(taken);
    sorted.truncate(100);
    *projects = sorted;
}


/// After remembering a project, the recent-projects list runs from most to
/// least recent and holds the merged list's projects up to the limit.
pub proof fn law_remembered_list_is_recent_first(ps: Seq<ZedRemoteProject>, p: ZedRemoteProject)
    ensures
        recent_first(remembered(ps, p)),
        remembered(ps, p).len() == if pushed(ps, p).len() > max_recent_projects() {
            max_recent_projects() as int
        } else {
            pushed(ps, p).len() as int
        },
{
    lemma_by_recency_sorted(pushed(ps, p));
}


/// A project read back from the recent-projects list, as a candidate.
pub open spec fn as_recent(p: ZedRemoteProject) -> ZedRemoteProject {
    ZedRemoteProject { source: ZedRemoteProjectSource::Recent, is_current: false, ..p }
}

/// The candidates after adding the recent projects `rs`, in order.
pub open spec fn with_recent(ps: Seq<ZedRemoteProject>, rs: Seq<ZedRemoteProject>) -> Seq<
    ZedRemoteProject,
>
    decreases rs.len(),
{
    if rs.len() == 0 {
        ps
    } else {
        pushed(with_recent(ps, rs.drop_last()), as_recent(rs.last()))
    }
}

/// Adds the projects of the recent-projects list to the candidates found
/// elsewhere: each as a `Recent`, not current, candidate.
pub fn add_recent_projects(projects: &mut Vec<ZedRemoteProject>, recent: Vec<ZedRemoteProject>)
    ensures
        final(projects)@ == with_recent(old(projects)@, recent@),
{
    let mut rest = recent;
    let ghost all = rest@;
    let mut n: usize = 0;
    assert(all.len() == rest.len());
    while rest.len() > 0
        invariant
            n + rest@.len() == all.len(),
            all.len() <= usize::MAX,
            rest@ == all.skip(n as int),
            projects@ == with_recent(old(projects)@, all.take(n as int)),
        decreases rest.len(),
    {
        let p = rest.remove(0);
        let r = ZedRemoteProject { source: ZedRemoteProjectSource::Recent, is_current: false, ..p };
        proof {
            assert(all.take(n + 1).drop_last() =~= all.take(n as int));
            assert(all.take(n + 1).last() == p);
            assert(rest@ =~= all.skip(n + 1));
        }
        push_project(projects, r);
        n = n + 1;
    }
    proof {
        assert(all.take(n as int) =~= all);
    }
}

} // verus!
