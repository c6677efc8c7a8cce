//! The manager's commands: the payloads they answer with and the rules they
//! apply to settings, event names and URLs.
use vstd::prelude::*;
use crate::json::{as_array, as_str, as_u64, get, take_member, JsonValue};
use crate::launcher::LaunchStatus;
use crate::registry::ZedRemoteProject;
use crate::relay_status::{lemma_lex_asymmetric, lemma_lex_total, lemma_lex_transitive, lex_less, lex_lt};
use crate::text::{
    chars_of, is_ascii_alnum, is_ascii_alnum_char, is_control, is_control_char, join,
    lemma_trim_idempotent, lines, lines_vec, owned, push_all, push_str, starts_with, starts_with_vec,
    string_from_chars, trim, trim_vec, vec_eq, vec_eq_str,
};
use crate::zed::ZedOpenStrategy;

verus! {

/// What every command answers: `ok` or `failed`, a message, and its payload.
#[derive(Debug)]
pub struct CommandResult<T> {
    pub status: String,
    pub message: String,
    pub payload: T,
}

/// A successful answer.
pub fn ok<T>(message: &str, payload: T) -> (r: CommandResult<T>)
    ensures
        r.status@ == "ok"@,
        r.message@ == message@,
        r.payload == payload,
{
    CommandResult { status: owned("ok"), message: owned(message), payload }
}

/// A failed answer.
pub fn failed<T>(message: &str, payload: T) -> (r: CommandResult<T>)
    ensures
        r.status@ == "failed"@,
        r.message@ == message@,
        r.payload == payload,
{
    CommandResult { status: owned("failed"), message: owned(message), payload }
}

#[derive(Debug)]
pub struct VersionPayload {
    pub version: String,
}

/// Whether a file the manager looks for was found, and where.
#[derive(Debug)]
pub struct PathState {
    pub status: String,
    pub path: Option<String>,
}

#[derive(Debug)]
pub struct OverviewPayload {
    pub codex_app: PathState,
    pub codex_version: Option<String>,
    pub silent_shortcut: PathState,
    pub management_shortcut: PathState,
    pub latest_launch: Option<LaunchStatus>,
    pub current_version: String,
    pub update_status: String,
    pub settings_path: String,
    pub logs_path: String,
}

#[derive(Debug)]
pub struct ZedRemoteProjectsPayload {
    pub projects: Vec<ZedRemoteProject>,
}

#[derive(Debug)]
pub struct ZedRemoteOpenPayload {
    pub url: String,
    pub strategy: ZedOpenStrategy,
}

#[derive(Debug)]
pub struct DeleteLocalSessionRequest {
    pub session_id: String,
    pub title: String,
}

/// The login and relay state of the Codex home, as the manager shows it.
#[derive(Debug)]
pub struct RelayPayload {
    pub authenticated: bool,
    pub auth_source: String,
    pub account_label: Option<String>,
    pub config_path: String,
    pub configured: bool,
    pub requires_openai_auth: bool,
    pub has_bearer_token: bool,
    pub backup_path: Option<String>,
}

#[derive(Debug)]
pub struct RelayFilesPayload {
    pub config_path: String,
    pub auth_path: String,
    pub config_contents: String,
    pub auth_contents: String,
}

#[derive(Debug)]
pub struct ExtractRelayCommonConfigPayload {
    pub common_config_contents: String,
    pub profile_config_contents: String,
}

#[derive(Debug)]
pub struct RelayProfileTestPayload {
    pub http_status: u16,
    pub endpoint: String,
    pub response_preview: String,
}

#[derive(Debug)]
pub struct RelayProfileModelsPayload {
    pub models: Vec<String>,
    pub endpoint: String,
}

#[derive(Debug)]
pub struct SaveRelayFileRequest {
    pub kind: String,
    pub contents: String,
}

#[derive(Debug)]
pub struct ExtractRelayCommonConfigRequest {
    pub config_contents: String,
}

/// A request to launch Codex++ from the manager.
#[derive(Debug)]
pub struct LaunchRequest {
    pub app_path: String,
    pub debug_port: u16,
    pub helper_port: u16,
}

impl Default for LaunchRequest {
    fn default() -> (r: Self)
        ensures
            r.app_path@ == Seq::<char>::empty(),
            r.debug_port == 9229,
            r.helper_port == 57321,
    {
        LaunchRequest {
            app_path: String::new(),
            debug_port: default_debug_port(),
            helper_port: default_helper_port(),
        }
    }
}

#[derive(Debug)]
pub struct LogRequest {
    pub lines: usize,
}

impl Default for LogRequest {
    fn default() -> (r: Self)
        ensures
            r.lines == 200,
    {
        LogRequest { lines: default_log_lines() }
    }
}

#[derive(Debug)]
pub struct LogsPayload {
    pub path: String,
    pub text: String,
    pub lines: usize,
}

#[derive(Debug)]
pub struct DiagnosticsPayload {
    pub report: String,
}

#[derive(Debug)]
pub struct WatcherPayload {
    pub enabled: bool,
    pub disabled_flag: String,
}

#[derive(Debug)]
pub struct StartupPayload {
    pub show_update: bool,
}

/// The debug port a launch request uses when it names none.
pub fn default_debug_port() -> (r: u16)
    ensures
        r == 9229,
{
    9229
}

/// The helper port a launch request uses when it names none.
pub fn default_helper_port() -> (r: u16)
    ensures
        r == 57321,
{
    57321
}

/// How many log lines a log request reads when it names no count.
pub fn default_log_lines() -> (r: usize)
    ensures
        r == 200,
{
    200
}

/// The manager opens on its update page: an argument `--show-update`, or
/// the environment value `1`.
pub open spec fn shows_update(args: Seq<Seq<char>>, env_value: Option<Seq<char>>) -> bool {
    (exists|i: int| 0 <= i < args.len() && #[trigger] args[i] == "--show-update"@) || env_value
        == Some("1"@)
}

pub open spec fn arg_views(args: Seq<String>) -> Seq<Seq<char>> {
    args.map_values(|a: String| a@)
}

pub open spec fn opt_str_view(v: Option<&str>) -> Option<Seq<char>> {
    match v {
        Some(s) => Some(s@),
        None => None,
    }
}

/// Whether the manager should open on its update page.
pub fn should_show_update(args: &Vec<String>, env_value: Option<&str>) -> (r: bool)
    ensures
        r == shows_update(arg_views(args@), opt_str_view(env_value)),
{
    let mut i: usize = 0;
    while i < args.len()
        invariant
            i <= args@.len(),
            forall|k: int| 0 <= k < i ==> #[trigger] args@[k]@ != "--show-update"@,
        decreases args.len() - i,
    {
        if vec_eq_str(&chars_of(args[i].as_str()), "--show-update") {
            proof {
                assert(arg_views(args@)[i as int] == "--show-update"@);
            }
            return true;
        }
        i = i + 1;
    }
    proof {
        assert forall|k: int| 0 <= k < args@.len() implies #[trigger] arg_views(args@)[k]
            != "--show-update"@ by {
            assert(arg_views(args@)[k] == args@[k]@);
        }
    }
    match env_value {
        Some(v) => vec_eq_str(&chars_of(v), "1"),
        None => false,
    }
}

/// `found` with the path, or `missing`.
pub fn path_state(path: Option<String>) -> (r: PathState)
    ensures
        match path {
            Some(p) => r.status@ == "found"@ && r.path == Some(p),
            None => r.status@ == "missing"@ && r.path is None,
        },
{
    match path {
        Some(p) => PathState { status: owned("found"), path: Some(p) },
        None => PathState { status: owned("missing"), path: None },
    }
}

/// `installed` or `missing`, with the shortcut's path.
pub fn shortcut_state(installed: bool, path: Option<String>) -> (r: PathState)
    ensures
        r.status@ == (if installed {
            "installed"@
        } else {
            "missing"@
        }),
        r.path == path,
{
    PathState { status: if installed {
        owned("installed")
    } else {
        owned("missing")
    }, path }
}

/// The URL the manager may open: the trimmed URL when it is `http://` or
/// `https://`.
pub open spec fn openable_url(url: Seq<char>) -> Option<Seq<char>> {
    let t = trim(url);
    if starts_with(t, "https://"@) || starts_with(t, "http://"@) {
        Some(t)
    } else {
        None
    }
}

/// The check the manager makes before it opens a link.
pub fn external_url_target(url: &str) -> (r: Option<String>)
    ensures
        match openable_url(url@) {
            Some(t) => r matches Some(s) && s@ == t,
            None => r is None,
        },
{
    let t = trim_vec(&chars_of(url));
    if starts_with_vec(&t, &chars_of("https://")) || starts_with_vec(&t, &chars_of("http://")) {
        Some(string_from_chars(&t))
    } else {
        None
    }
}

/// The payload `{"url": t}`.
pub open spec fn is_url_payload(v: JsonValue, t: Seq<char>) -> bool {
    &&& v matches JsonValue::Object(m)
    &&& m@.len() == 1
    &&& m@[0].0@ == "url"@
    &&& m@[0].1 matches JsonValue::Str(s) && s@ == t
}

/// What opening an external link answers. Only an `http://` or `https://`
/// link is opened; `open_error` is the error text of opening it in the
/// browser, when that failed (only asked for such a link).
pub fn open_external_url_result(url: &str, open_error: Option<&str>) -> (r: CommandResult<JsonValue>)
    ensures
        match openable_url(url@) {
            None => r.status@ == "failed"@ && r.message@ == "只允许打开 http 或 https 链接。"@
                && (r.payload matches JsonValue::Object(m) && m@.len() == 0),
            Some(t) => match open_error {
                None => r.status@ == "ok"@ && r.message@ == "已在系统浏览器打开链接。"@
                    && is_url_payload(r.payload, t),
                Some(e) => r.status@ == "failed"@ && r.message@ == "打开链接失败："@ + e@
                    && is_url_payload(r.payload, t),
            },
        },
{
    match external_url_target(url) {
        None => failed("只允许打开 http 或 https 链接。", JsonValue::Object(Vec::new())),
        Some(t) => {
            let mut members: Vec<(String, JsonValue)> = Vec::new();
            members.push((owned("url"), JsonValue::Str(t)));
            match open_error {
                None => ok("已在系统浏览器打开链接。", JsonValue::Object(members)),
                Some(e) => {
                    let mut msg: Vec<char> = chars_of("打开链接失败：");
                    push_str(&mut msg, e);
                    let text = string_from_chars(&msg);
                    failed(text.as_str(), JsonValue::Object(members))
                },
            }
        },
    }
}

pub open spec fn event_char(c: char) -> char {
    if is_ascii_alnum(c) || c == '_' || c == '-' || c == '.' {
        c
    } else {
        '_'
    }
}

pub open spec fn is_event_trim(c: char) -> bool {
    c == '.' || c == '_' || c == '-'
}

/// `s` without leading and trailing `.`, `_` and `-`.
pub open spec fn trim_event_marks(s: Seq<char>) -> Seq<char>
    decreases s.len(),
{
    if s.len() > 0 && is_event_trim(s[0]) {
        trim_event_marks(s.drop_first())
    } else if s.len() > 0 && is_event_trim(s.last()) {
        trim_event_marks(s.drop_last())
    } else {
        s
    }
}

/// The event name a manager event is logged under.
pub open spec fn manager_event_name(event: Seq<char>) -> Seq<char> {
    let suffix = trim(trim_event_marks(trim(event).map_values(|c: char| event_char(c))));
    if suffix.len() == 0 {
        "manager.ui.event"@
    } else if starts_with(suffix, "manager."@) {
        suffix
    } else {
        "manager.ui."@ + suffix
    }
}

/// `sanitize_manager_event`.
pub fn sanitize_manager_event(event: &str) -> (r: String)
    ensures
        r@ == manager_event_name(event@),
{
    let t = trim_vec(&chars_of(event));
    let mut mapped: Vec<char> = Vec::new();
    let mut i: usize = 0;
    while i < t.len()
        invariant
            i <= t@.len(),
            mapped@ == t@.take(i as int).map_values(|c: char| event_char(c)),
        decreases t.len() - i,
    {
        let c = t[i];
        let d = if is_ascii_alnum_char(c) || c == '_' || c == '-' || c == '.' {
            c
        } else {
            '_'
        };
        mapped.push(d);
        i = i + 1;
        proof {
            assert(mapped@ =~= t@.take(i as int).map_values(|c: char| event_char(c)));
        }
    }
    proof {
        assert(t@.take(t@.len() as int) =~= t@);
    }
    let stripped = trim_marks_vec(&mapped);
    let suffix = trim_vec(&stripped);
    if suffix.len() == 0 {
        owned("manager.ui.event")
    } else if starts_with_vec(&suffix, &chars_of("manager.")) {
        string_from_chars(&suffix)
    } else {
        let mut out = chars_of("manager.ui.");
        let mut k: usize = 0;
        let ghost prefix = out@;
        while k < suffix.len()
            invariant
                k <= suffix@.len(),
                prefix == "manager.ui."@,
                out@ == prefix + suffix@.take(k as int),
            decreases suffix.len() - k,
        {
            out.push(suffix[k]);
            k = k + 1;
            proof {
                assert(out@ =~= prefix + suffix@.take(k as int));
            }
        }
        proof {
            assert(suffix@.take(suffix@.len() as int) =~= suffix@);
        }
        string_from_chars(&out)
    }
}

fn trim_marks_vec(v: &Vec<char>) -> (r: Vec<char>)
    ensures
        r@ == trim_event_marks(v@),
{
    let mut a: usize = 0;
    let mut b: usize = v.len();
    proof {
        assert(v@.subrange(0, v@.len() as int) =~= v@);
    }
    while a < b && (v[a] == '.' || v[a] == '_' || v[a] == '-')
        invariant
            a <= b <= v@.len(),
            b == v@.len(),
            trim_event_marks(v@.subrange(a as int, b as int)) == trim_event_marks(v@),
        decreases b - a,
    {
        proof {
            assert(v@.subrange(a as int, b as int).drop_first() =~= v@.subrange(a + 1, b as int));
        }
        a = a + 1;
    }
    while a < b && (v[b - 1] == '.' || v[b - 1] == '_' || v[b - 1] == '-')
        invariant
            a <= b <= v@.len(),
            a < b ==> !is_event_trim(v@[a as int]),
            trim_event_marks(v@.subrange(a as int, b as int)) == trim_event_marks(v@),
        decreases b - a,
    {
        proof {
            let s = v@.subrange(a as int, b as int);
            assert(s.drop_last() =~= v@.subrange(a as int, b - 1));
            assert(s[0] == v@[a as int]);
        }
        b = b - 1;
    }
    let mut out: Vec<char> = Vec::new();
    let mut k = a;
    while k < b
        invariant
            a <= k <= b <= v@.len(),
            out@ == v@.subrange(a as int, k as int),
        decreases b - k,
    {
        out.push(v[k]);
        k = k + 1;
        proof {
            assert(out@ =~= v@.subrange(a as int, k as int));
        }
    }
    proof {
        let s = v@.subrange(a as int, b as int);
        if s.len() > 0 {
            assert(s[0] == v@[a as int]);
            assert(s.last() == v@[b - 1]);
        }
    }
    out
}

/// A provider name that can be saved: not blank and free of control
/// characters, once trimmed.
#[verifier::opaque]
pub open spec fn saveable_provider(v: Seq<char>) -> bool {
    trim(v).len() > 0 && !(exists|i: int| 0 <= i < trim(v).len() && is_control(#[trigger] trim(v)[i]))
}

/// The names sorted strictly, as `String`s compare: distinct and in order.
pub open spec fn strictly_sorted(names: Seq<String>) -> bool {
    forall|p: int, q: int| 0 <= p < q < names.len() ==> lex_lt(#[trigger] names[p]@, #[trigger] names[q]@)
}

/// Inserts `name`, absent from sorted `names`, at its place.
pub fn insert_name_sorted(names: &mut Vec<String>, name: String)
    requires
        strictly_sorted(old(names)@),
        forall|p: int| 0 <= p < old(names)@.len() ==> #[trigger] old(names)@[p]@ != name@,
    ensures
        strictly_sorted(final(names)@),
        exists|j: int|
            0 <= j <= old(names)@.len() && final(names)@ == #[trigger] old(names)@.insert(j, name),
{
    let key = chars_of(name.as_str());
    let mut j: usize = 0;
    while j < names.len() && !lex_less(&key, &chars_of(names[j].as_str()))
        invariant
            j <= names@.len(),
            names@ == old(names)@,
            key@ == name@,
            forall|p: int| 0 <= p < names@.len() ==> #[trigger] names@[p]@ != name@,
            forall|p: int| 0 <= p < j ==> lex_lt(#[trigger] names@[p]@, name@),
        decreases names.len() - j,
    {
        proof {
            lemma_lex_total(names@[j as int]@, name@);
        }
        j = j + 1;
    }
    let ghost before = names@;
    names.insert(j, name);
    proof {
        assert forall|p: int, q: int| 0 <= p < q < names@.len() implies lex_lt(
            #[trigger] names@[p]@,
            #[trigger] names@[q]@,
        ) by {
            if q < j {
                assert(names@[p] == before[p] && names@[q] == before[q]);
            } else if q == j {
                assert(names@[p] == before[p]);
            } else if p == j {
                assert(names@[q] == before[q - 1]);
                if q - 1 > j {
                    lemma_lex_transitive(names@[p]@, before[j as int]@, before[q - 1]@);
                }
            } else if p < j {
                assert(names@[p] == before[p]);
                assert(names@[q] == before[q - 1]);
                lemma_lex_transitive(before[p]@, names@[j as int]@, before[j as int]@);
                if q - 1 > j {
                    lemma_lex_transitive(before[p]@, before[j as int]@, before[q - 1]@);
                }
            } else {
                assert(names@[p] == before[p - 1]);
                assert(names@[q] == before[q - 1]);
            }
        }
    }
}

fn has_control(v: &Vec<char>) -> (r: bool)
    ensures
        r == exists|i: int| 0 <= i < v@.len() && is_control(#[trigger] v@[i]),
{
    let mut i: usize = 0;
    while i < v.len()
        invariant
            i <= v@.len(),
            forall|k: int| 0 <= k < i ==> !is_control(#[trigger] v@[k]),
        decreases v.len() - i,
    {
        if is_control_char(v[i]) {
            return true;
        }
        i = i + 1;
    }
    false
}

fn position_of(names: &Vec<String>, name: &Vec<char>) -> (r: Option<usize>)
    ensures
        match r {
            Some(i) => i < names@.len() && names@[i as int]@ == name@,
            None => forall|p: int| 0 <= p < names@.len() ==> #[trigger] names@[p]@ != name@,
        },
{
    let mut i: usize = 0;
    while i < names.len()
        invariant
            i <= names@.len(),
            forall|p: int| 0 <= p < i ==> #[trigger] names@[p]@ != name@,
        decreases names.len() - i,
    {
        if vec_eq(&chars_of(names[i].as_str()), name) {
            return Some(i);
        }
        i = i + 1;
    }
    None
}

/// `name` is the trimmed form of a saveable one of `values[..k]`.
pub open spec fn saveable_source(name: Seq<char>, values: Seq<String>, k: int) -> bool {
    exists|m: int| 0 <= m < k && saveable_provider(#[trigger] values[m]@) && name == trim(values[m]@)
}

/// `name` is one of `out`.
pub open spec fn listed(out: Seq<String>, name: Seq<char>) -> bool {
    exists|i: int| 0 <= i < out.len() && #[trigger] out[i]@ == name
}

/// Every name of `out` is the trimmed form of a saveable one of
/// `values[..k]`.
pub open spec fn drawn_from(out: Seq<String>, values: Seq<String>, k: int) -> bool {
    forall|i: int| 0 <= i < out.len() ==> #[trigger] saveable_source(out[i]@, values, k)
}

/// Every saveable name of `values[..k]`, trimmed, is in `out`.
pub open spec fn covers(out: Seq<String>, values: Seq<String>, k: int) -> bool {
    forall|m: int|
        0 <= m < k && saveable_provider(#[trigger] values[m]@) ==> listed(out, trim(values[m]@))
}

proof fn lemma_list_step_same(out: Seq<String>, values: Seq<String>, k: int)
    requires
        0 <= k < values.len(),
        drawn_from(out, values, k),
        covers(out, values, k),
        saveable_provider(values[k]@) ==> listed(out, trim(values[k]@)),
    ensures
        drawn_from(out, values, k + 1),
        covers(out, values, k + 1),
{
    assert forall|i: int| 0 <= i < out.len() implies #[trigger] saveable_source(out[i]@, values, k + 1) by {
        assert(saveable_source(out[i]@, values, k));
    }
}

proof fn lemma_list_step_insert(
    before: Seq<String>,
    out: Seq<String>,
    values: Seq<String>,
    k: int,
    j: int,
    added: String,
)
    requires
        0 <= k < values.len(),
        0 <= j <= before.len(),
        out == before.insert(j, added),
        added@ == trim(values[k]@),
        saveable_provider(values[k]@),
        drawn_from(before, values, k),
        covers(before, values, k),
    ensures
        drawn_from(out, values, k + 1),
        covers(out, values, k + 1),
{
    assert forall|i: int| 0 <= i < out.len() implies #[trigger] saveable_source(out[i]@, values, k + 1) by {
        if i == j {
            assert(saveable_provider(values[k]@) && out[i]@ == trim(values[k]@));
        } else {
            let i2 = if i < j { i } else { i - 1 };
            assert(out[i] == before[i2]);
            assert(saveable_source(before[i2]@, values, k));
        }
    }
    assert forall|m: int| 0 <= m < k + 1 && saveable_provider(#[trigger] values[m]@) implies listed(
        out,
        trim(values[m]@),
    ) by {
        if m == k {
            assert(out[j]@ == trim(values[m]@));
        } else {
            assert(listed(before, trim(values[m]@)));
            let i = choose|i: int| 0 <= i < before.len() && #[trigger] before[i]@ == trim(values[m]@);
            let i2 = if i < j { i } else { i + 1 };
            assert(out[i2] == before[i]);
        }
    }
}

/// `normalize_provider_sync_provider_list`: the saveable names, trimmed,
/// each once, in sorted order.
pub fn normalize_provider_sync_provider_list(values: Vec<String>) -> (r: Vec<String>)
    ensures
        strictly_sorted(r@),
        drawn_from(r@, values@, values@.len() as int),
        covers(r@, values@, values@.len() as int),
{
    let mut out: Vec<String> = Vec::new();
    let mut k: usize = 0;
    while k < values.len()
        invariant
            k <= values@.len(),
            strictly_sorted(out@),
            drawn_from(out@, values@, k as int),
            covers(out@, values@, k as int),
        decreases values.len() - k,
    {
        let t = trim_vec(&chars_of(values[k].as_str()));
        proof {
            reveal(saveable_provider);
        }
        if t.len() > 0 && !has_control(&t) {
            match position_of(&out, &t) {
                Some(i) => {
                    proof {
                        assert(out@[i as int]@ == trim(values@[k as int]@));
                        assert(listed(out@, trim(values@[k as int]@)));
                        lemma_list_step_same(out@, values@, k as int);
                    }
                },
                None => {
                    let ghost before = out@;
                    let name = string_from_chars(&t);
                    let ghost added = name;
                    insert_name_sorted(&mut out, name);
                    proof {
                        let j = choose|j: int|
                            0 <= j <= before.len() && out@ == #[trigger] before.insert(j, added);
                        lemma_list_step_insert(before, out@, values@, k as int, j, added);
                    }
                },
            }
        } else {
            proof {
                lemma_list_step_same(out@, values@, k as int);
            }
        }
        k = k + 1;
    }
    out
}

/// A provider chosen for sync, applied to the saved list: the trimmed
/// provider becomes the selection and joins the saved names, which are
/// normalised again. A blank provider changes nothing.
pub fn provider_sync_selection(saved: Vec<String>, provider: &str) -> (r: Option<(String, Vec<String>)>)
    ensures
        trim(provider@).len() == 0 <==> r is None,
        r matches Some((selected, list)) ==> {
            &&& selected@ == trim(provider@)
            &&& strictly_sorted(list@)
            &&& forall|i: int|
                0 <= i < list@.len() ==> #[trigger] saveable_source(list@[i]@, saved@, saved@.len() as int)
                    || (list@[i]@ == trim(provider@) && saveable_provider(provider@))
            &&& covers(list@, saved@, saved@.len() as int)
            &&& saveable_provider(provider@) ==> listed(list@, trim(provider@))
        },
{
    let t = trim_vec(&chars_of(provider));
    if t.len() == 0 {
        return None;
    }
    let selected = string_from_chars(&t);
    let mut names = saved;
    let ghost given = names@;
    let found = position_of(&names, &t);
    let appended = found.is_none();
    if appended {
        names.push(string_from_chars(&t));
    }
    let list = normalize_provider_sync_provider_list(names);
    proof {
        reveal(saveable_provider);
        lemma_trim_idempotent(provider@);
        let n = given.len() as int;
        assert forall|i: int| 0 <= i < list@.len() implies #[trigger] saveable_source(list@[i]@, given, n)
            || (list@[i]@ == trim(provider@) && saveable_provider(provider@)) by {
            assert(saveable_source(list@[i]@, names@, names@.len() as int));
            let m = choose|m: int|
                0 <= m < names@.len() && saveable_provider(#[trigger] names@[m]@) && list@[i]@ == trim(
                    names@[m]@,
                );
            if m < n {
                assert(names@[m] == given[m]);
                assert(saveable_provider(given[m]@));
            } else {
                assert(names@[m]@ == trim(provider@));
            }
        }
        assert forall|m: int| 0 <= m < n && saveable_provider(#[trigger] given[m]@) implies listed(
            list@,
            trim(given[m]@),
        ) by {
            assert(names@[m] == given[m]);
            assert(saveable_provider(names@[m]@));
        }
        if saveable_provider(provider@) {
            match found {
                Some(k) => {
                    assert(names@[k as int]@ == trim(provider@));
                    assert(saveable_provider(names@[k as int]@));
                },
                None => {
                    let last = names@.len() - 1;
                    assert(names@[last]@ == trim(provider@));
                    assert(saveable_provider(names@[last]@));
                },
            }
        }
    }
    Some((selected, list))
}

/// A relay profile, as far as local storage of linked profiles looks at it.
#[derive(Debug)]
pub struct RelayProfileRef {
    pub id: String,
    pub name: String,
    pub linked_ccs_provider_id: String,
}

/// The settings that linking to CC Switch touches.
#[derive(Debug)]
pub struct CcsLinkSettings {
    pub ccs_link_enabled: bool,
    pub active_relay_id: String,
    pub relay_profiles: Vec<RelayProfileRef>,
}

pub open spec fn is_local_profile(p: RelayProfileRef) -> bool {
    trim(p.linked_ccs_provider_id@).len() == 0
}

/// The profiles that are not linked to a CC Switch provider, in order.
pub open spec fn local_profiles(ps: Seq<RelayProfileRef>) -> Seq<RelayProfileRef>
    decreases ps.len(),
{
    if ps.len() == 0 {
        Seq::empty()
    } else if is_local_profile(ps[0]) {
        seq![ps[0]] + local_profiles(ps.drop_first())
    } else {
        local_profiles(ps.drop_first())
    }
}

/// The active profile id once linked profiles are dropped: kept while CC
/// Switch is linked or while a kept profile has it, otherwise the first kept
/// profile's id, or the default.
pub open spec fn kept_active_id(
    enabled: bool,
    active: Seq<char>,
    kept: Seq<RelayProfileRef>,
    default_id: Seq<char>,
) -> Seq<char> {
    if enabled || (exists|i: int| 0 <= i < kept.len() && #[trigger] kept[i].id@ == active) {
        active
    } else if kept.len() > 0 {
        kept[0].id@
    } else {
        default_id
    }
}

/// `remove_linked_ccs_profiles_for_local_storage`: drops the profiles
/// linked to CC Switch before the settings are stored, and fixes the active
/// profile when it went with them and the link is off. `default_relay_id`
/// is the settings' default active profile id.
pub fn remove_linked_ccs_profiles_for_local_storage(settings: &mut CcsLinkSettings, default_relay_id: &str)
    ensures
        final(settings).relay_profiles@ == local_profiles(old(settings).relay_profiles@),
        final(settings).ccs_link_enabled == old(settings).ccs_link_enabled,
        final(settings).active_relay_id@ == kept_active_id(
            old(settings).ccs_link_enabled,
            old(settings).active_relay_id@,
            local_profiles(old(settings).relay_profiles@),
            default_relay_id@,
        ),
{
    let mut rest: Vec<RelayProfileRef> = Vec::new();
    std::mem::swap(&mut rest, &mut settings.relay_profiles);
    let ghost all = rest@;
    let mut kept: Vec<RelayProfileRef> = Vec::new();
    while rest.len() > 0
        invariant
            kept@ + local_profiles(rest@) == local_profiles(all),
        decreases rest.len(),
    {
        let ghost before = rest@;
        let p = rest.remove(0);
        proof {
            assert(before.drop_first() =~= rest@);
        }
        if trim_vec(&chars_of(p.linked_ccs_provider_id.as_str())).len() == 0 {
            let ghost k0 = kept@;
            kept.push(p);
            proof {
                assert(kept@ + local_profiles(rest@) =~= k0 + (seq![p] + local_profiles(rest@)));
            }
        }
    }
    proof {
        assert(kept@ + local_profiles(rest@) =~= kept@);
    }
    if !settings.ccs_link_enabled {
        let active = chars_of(settings.active_relay_id.as_str());
        let mut present = false;
        let mut i: usize = 0;
        while i < kept.len()
            invariant
                i <= kept@.len(),
                active@ == settings.active_relay_id@,
                present == exists|k: int| 0 <= k < i && #[trigger] kept@[k].id@ == active@,
            decreases kept.len() - i,
        {
            if vec_eq(&chars_of(kept[i].id.as_str()), &active) {
                present = true;
            }
            i = i + 1;
        }
        if !present {
            settings.active_relay_id = if kept.len() > 0 {
                kept[0].id.clone()
            } else {
                owned(default_relay_id)
            };
        }
    }
    settings.relay_profiles = kept;
}

/// Whether a profile carries the files it needs: an official profile that
/// mixes in an API key needs only `config.toml`, any other both files.
pub fn relay_has_complete_files(
    official_mode: bool,
    official_mix_api_key: bool,
    config_contents: &str,
    auth_contents: &str,
) -> (r: bool)
    ensures
        r == if official_mode && official_mix_api_key {
            trim(config_contents@).len() > 0
        } else {
            trim(config_contents@).len() > 0 && trim(auth_contents@).len() > 0
        },
{
    let config_filled = trim_vec(&chars_of(config_contents)).len() > 0;
    if official_mode && official_mix_api_key {
        return config_filled;
    }
    config_filled && trim_vec(&chars_of(auth_contents)).len() > 0
}

/// The files of the Codex home that the manager edits.
#[derive(Debug, Clone, Copy, PartialEq, Eq)]
pub enum RelayFileKind {
    Config,
    Auth,
}

/// The file a save request of `kind` writes: `config` is `config.toml`,
/// `auth` is `auth.json`; any other kind is refused.
pub fn relay_file_kind(kind: &str) -> (r: Option<RelayFileKind>)
    ensures
        r == if kind@ == "config"@ {
            Some(RelayFileKind::Config)
        } else if kind@ == "auth"@ {
            Some(RelayFileKind::Auth)
        } else {
            None
        },
{
    let k = chars_of(kind);
    if vec_eq_str(&k, "config") {
        Some(RelayFileKind::Config)
    } else if vec_eq_str(&k, "auth") {
        Some(RelayFileKind::Auth)
    } else {
        None
    }
}

impl RelayFileKind {
    /// The file's name in the Codex home.
    pub fn file_name(self) -> (r: &'static str)
        ensures
            r@ == match self {
                RelayFileKind::Config => "config.toml"@,
                RelayFileKind::Auth => "auth.json"@,
            },
    {
        match self {
            RelayFileKind::Config => "config.toml",
            RelayFileKind::Auth => "auth.json",
        }
    }
}

/// The relay state of the Codex home as the relay configuration reports it.
#[derive(Debug)]
pub struct RelayAuthStatus {
    pub authenticated: bool,
    pub auth_source: String,
    pub account_label: Option<String>,
    pub config_path: String,
    pub configured: bool,
    pub requires_openai_auth: bool,
    pub has_bearer_token: bool,
}

/// `relay_payload`: the status with the backup path of the last change.
pub fn relay_payload(status: RelayAuthStatus, backup_path: Option<String>) -> (r: RelayPayload)
    ensures
        r.authenticated == status.authenticated,
        r.auth_source == status.auth_source,
        r.account_label == status.account_label,
        r.config_path == status.config_path,
        r.configured == status.configured,
        r.requires_openai_auth == status.requires_openai_auth,
        r.has_bearer_token == status.has_bearer_token,
        r.backup_path == backup_path,
{
    RelayPayload {
        authenticated: status.authenticated,
        auth_source: status.auth_source,
        account_label: status.account_label,
        config_path: status.config_path,
        configured: status.configured,
        requires_openai_auth: status.requires_openai_auth,
        has_bearer_token: status.has_bearer_token,
        backup_path,
    }
}

/// The last `max_lines` lines of `contents`, joined with `\n`.
pub open spec fn tail_of(contents: Seq<char>, max_lines: nat) -> Seq<char> {
    let ls = lines(contents);
    let from = if ls.len() > max_lines {
        ls.len() - max_lines
    } else {
        0
    };
    join(ls.skip(from), "\n"@)
}

/// The tail of the log file's text that the manager shows.
pub fn tail_lines(contents: &str, max_lines: usize) -> (r: String)
    ensures
        r@ == tail_of(contents@, max_lines as nat),
{
    let all = lines_vec(&chars_of(contents));
    let ghost ls = lines(contents@);
    let from: usize = if all.len() > max_lines {
        all.len() - max_lines
    } else {
        0
    };
    let mut out: Vec<char> = Vec::new();
    let mut i = from;
    while i < all.len()
        invariant
            from <= i <= all@.len(),
            all@.len() == ls.len(),
            forall|k: int| 0 <= k < all@.len() ==> #[trigger] all@[k]@ == ls[k],
            out@ == join(ls.subrange(from as int, i as int), "\n"@),
        decreases all.len() - i,
    {
        let ghost before = out@;
        if i > from {
            push_str(&mut out, "\n");
        }
        push_all(&mut out, &all[i]);
        proof {
            let part = ls.subrange(from as int, i + 1);
            assert(part.drop_last() =~= ls.subrange(from as int, i as int));
            assert(part.last() == all@[i as int]@);
            if i == from {
                assert(part.len() == 1);
                assert(out@ =~= part[0]);
            }
        }
        i = i + 1;
    }
    proof {
        assert(ls.subrange(from as int, ls.len() as int) =~= ls.skip(from as int));
    }
    string_from_chars(&out)
}

/// The advertisements payload.
#[derive(Debug)]
pub struct AdsPayload {
    pub version: u64,
    pub ads: Vec<JsonValue>,
}

/// `ads_payload`: the list's `version` (1 when it has none) and its `ads`
/// array (empty when it has none).
pub fn ads_payload(payload: JsonValue) -> (r: AdsPayload)
    ensures
        r.version == match as_u64(get(payload, "version"@)) {
            Some(v) => v,
            None => 1,
        },
        r.ads@ == match get(payload, "ads"@) {
            Some(JsonValue::Array(a)) => a@,
            _ => Seq::<JsonValue>::empty(),
        },
{
    let version = match payload.get("version") {
        Some(v) => match v.as_u64() {
            Some(n) => n,
            None => 1,
        },
        None => 1,
    };
    let ads = match payload {
        JsonValue::Object(members) => match take_member(members, "ads") {
            Some(JsonValue::Array(a)) => a,
            _ => Vec::new(),
        },
        _ => Vec::new(),
    };
    AdsPayload { version, ads }
}

/// The market id and version a user script records, when it has an id.
pub open spec fn market_entry(script: JsonValue) -> Option<(Seq<char>, Seq<char>)> {
    match as_str(get(script, "market_id"@)) {
        Some(id) => if id.len() == 0 {
            None
        } else {
            Some(
                (
                    id,
                    match as_str(get(script, "version"@)) {
                        Some(v) => v,
                        None => Seq::empty(),
                    },
                ),
            )
        },
        None => None,
    }
}

/// The versions of the installed market scripts by id; a later script wins.
pub open spec fn market_versions(scripts: Seq<JsonValue>) -> Map<Seq<char>, Seq<char>>
    decreases scripts.len(),
{
    if scripts.len() == 0 {
        Map::empty()
    } else {
        let m = market_versions(scripts.drop_last());
        match market_entry(scripts.last()) {
            Some((id, v)) => m.insert(id, v),
            None => m,
        }
    }
}

/// The ids of `pairs` in strictly increasing order.
pub open spec fn ids_sorted(pairs: Seq<(String, String)>) -> bool {
    forall|p: int, q: int|
        0 <= p < q < pairs.len() ==> lex_lt(#[trigger] pairs[p].0@, #[trigger] pairs[q].0@)
}

pub open spec fn has_id(pairs: Seq<(String, String)>, id: Seq<char>) -> bool {
    exists|i: int| 0 <= i < pairs.len() && #[trigger] pairs[i].0@ == id
}

/// `pairs` holds exactly the entries of `m`, once each.
pub open spec fn pairs_match(pairs: Seq<(String, String)>, m: Map<Seq<char>, Seq<char>>) -> bool {
    &&& forall|i: int|
        0 <= i < pairs.len() ==> m.dom().contains(#[trigger] pairs[i].0@) && m[pairs[i].0@]
            == pairs[i].1@
    &&& forall|id: Seq<char>| #[trigger] m.dom().contains(id) ==> has_id(pairs, id)
}

fn insert_pair_sorted(pairs: &mut Vec<(String, String)>, entry: (String, String))
    requires
        ids_sorted(old(pairs)@),
        !has_id(old(pairs)@, entry.0@),
    ensures
        ids_sorted(final(pairs)@),
        exists|j: int|
            0 <= j <= old(pairs)@.len() && final(pairs)@ == #[trigger] old(pairs)@.insert(j, entry),
{
    let key = chars_of(entry.0.as_str());
    let mut j: usize = 0;
    while j < pairs.len() && !lex_less(&key, &chars_of(pairs[j].0.as_str()))
        invariant
            j <= pairs@.len(),
            pairs@ == old(pairs)@,
            key@ == entry.0@,
            !has_id(pairs@, entry.0@),
            forall|p: int| 0 <= p < j ==> lex_lt(#[trigger] pairs@[p].0@, entry.0@),
        decreases pairs.len() - j,
    {
        proof {
            assert(pairs@[j as int].0@ != entry.0@);
            lemma_lex_total(pairs@[j as int].0@, entry.0@);
        }
        j = j + 1;
    }
    let ghost before = pairs@;
    pairs.insert(j, entry);
    proof {
        assert forall|p: int, q: int| 0 <= p < q < pairs@.len() implies lex_lt(
            #[trigger] pairs@[p].0@,
            #[trigger] pairs@[q].0@,
        ) by {
            if q < j {
                assert(pairs@[p] == before[p] && pairs@[q] == before[q]);
            } else if q == j {
                assert(pairs@[p] == before[p]);
            } else if p == j {
                assert(pairs@[q] == before[q - 1]);
                if q - 1 > j {
                    lemma_lex_transitive(pairs@[p].0@, before[j as int].0@, before[q - 1].0@);
                }
            } else if p < j {
                assert(pairs@[p] == before[p]);
                assert(pairs@[q] == before[q - 1]);
                lemma_lex_transitive(before[p].0@, pairs@[j as int].0@, before[j as int].0@);
                if q - 1 > j {
                    lemma_lex_transitive(before[p].0@, before[j as int].0@, before[q - 1].0@);
                }
            } else {
                assert(pairs@[p] == before[p - 1]);
                assert(pairs@[q] == before[q - 1]);
            }
        }
    }
}

fn id_position(pairs: &Vec<(String, String)>, id: &Vec<char>) -> (r: Option<usize>)
    ensures
        match r {
            Some(i) => i < pairs@.len() && pairs@[i as int].0@ == id@,
            None => !has_id(pairs@, id@),
        },
{
    let mut i: usize = 0;
    while i < pairs.len()
        invariant
            i <= pairs@.len(),
            forall|p: int| 0 <= p < i ==> #[trigger] pairs@[p].0@ != id@,
        decreases pairs.len() - i,
    {
        if vec_eq(&chars_of(pairs[i].0.as_str()), id) {
            return Some(i);
        }
        i = i + 1;
    }
    None
}

/// `installed_market_versions`: the version of each installed market
/// script by id, in id order, as a sorted map holds them.
pub fn installed_market_versions(user_scripts: &JsonValue) -> (r: Vec<(String, String)>)
    ensures
        ids_sorted(r@),
        pairs_match(
            r@,
            match as_array(get(*user_scripts, "scripts"@)) {
                Some(a) => market_versions(a),
                None => Map::empty(),
            },
        ),
{
    let mut out: Vec<(String, String)> = Vec::new();
    let scripts = match user_scripts.get("scripts") {
        Some(v) => match v.as_array() {
            Some(a) => a,
            None => {
                proof {
                    assert(pairs_match(out@, Map::<Seq<char>, Seq<char>>::empty()));
                }
                return out;
            },
        },
        None => {
            proof {
                assert(pairs_match(out@, Map::<Seq<char>, Seq<char>>::empty()));
            }
            return out;
        },
    };
    let mut k: usize = 0;
    proof {
        assert(scripts@.take(0) =~= Seq::<JsonValue>::empty());
        assert(pairs_match(out@, market_versions(scripts@.take(0))));
    }
    while k < scripts.len()
        invariant
            k <= scripts@.len(),
            ids_sorted(out@),
            pairs_match(out@, market_versions(scripts@.take(k as int))),
        decreases scripts.len() - k,
    {
        let script = &scripts[k];
        let ghost m = market_versions(scripts@.take(k as int));
        proof {
            assert(scripts@.take(k + 1).drop_last() =~= scripts@.take(k as int));
            assert(scripts@.take(k + 1).last() == scripts@[k as int]);
        }
        let id = match script.get("market_id") {
            Some(v) => v.as_str(),
            None => None,
        };
        match id {
            Some(id) => {
                let id_chars = chars_of(id);
                if id_chars.len() > 0 {
                    let version = match script.get("version") {
                        Some(v) => match v.as_str() {
                            Some(t) => owned(t),
                            None => String::new(),
                        },
                        None => String::new(),
                    };
                    let ghost m2 = m.insert(id@, version@);
                    match id_position(&out, &id_chars) {
                        Some(i) => {
                            let ghost before = out@;
                            let name = out[i].0.clone();
                            out.set(i, (name, version));
                            proof {
                                assert forall|p: int, q: int| 0 <= p < q < out@.len() implies lex_lt(
                                    #[trigger] out@[p].0@,
                                    #[trigger] out@[q].0@,
                                ) by {
                                    assert(before[p].0@ == out@[p].0@);
                                    assert(before[q].0@ == out@[q].0@);
                                }
                                assert forall|p: int| 0 <= p < out@.len() implies m2.dom().contains(
                                    #[trigger] out@[p].0@,
                                ) && m2[out@[p].0@] == out@[p].1@ by {
                                    if p != i {
                                        assert(out@[p] == before[p]);
                                        if p < i {
                                            lemma_lex_asymmetric(before[p].0@, before[i as int].0@);
                                        } else {
                                            lemma_lex_asymmetric(before[i as int].0@, before[p].0@);
                                        }
                                    }
                                }
                                assert forall|n: Seq<char>| #[trigger] m2.dom().contains(n) implies has_id(
                                    out@,
                                    n,
                                ) by {
                                    if n == id@ {
                                        assert(out@[i as int].0@ == n);
                                    } else {
                                        assert(has_id(before, n));
                                        let q = choose|q: int| 0 <= q < before.len() && #[trigger] before[q].0@ == n;
                                        assert(out@[q].0@ == n);
                                    }
                                }
                            }
                        },
                        None => {
                            let ghost before = out@;
                            let entry = (string_from_chars(&id_chars), version);
                            let ghost added = entry;
                            insert_pair_sorted(&mut out, entry);
                            proof {
                                let j = choose|j: int|
                                    0 <= j <= before.len() && out@ == #[trigger] before.insert(j, added);
                                assert forall|p: int| 0 <= p < out@.len() implies m2.dom().contains(
                                    #[trigger] out@[p].0@,
                                ) && m2[out@[p].0@] == out@[p].1@ by {
                                    if p != j {
                                        let p2 = if p < j { p } else { p - 1 };
                                        assert(out@[p] == before[p2]);
                                        assert(before[p2].0@ != id@);
                                    }
                                }
                                assert forall|n: Seq<char>| #[trigger] m2.dom().contains(n) implies has_id(
                                    out@,
                                    n,
                                ) by {
                                    if n == id@ {
                                        assert(out@[j].0@ == n);
                                    } else {
                                        assert(has_id(before, n));
                                        let q = choose|q: int| 0 <= q < before.len() && #[trigger] before[q].0@ == n;
                                        let q2 = if q < j { q } else { q + 1 };
                                        assert(out@[q2] == before[q]);
                                    }
                                }
                            }
                        },
                    }
                }
            },
            None => {},
        }
        k = k + 1;
    }
    proof {
        assert(scripts@.take(scripts@.len() as int) =~= scripts@);
    }
    out
}

/// Whether a market script is installed, at which version, and whether the
/// market has another version of it.
#[derive(Debug)]
pub struct MarketInstallState {
    pub installed: bool,
    pub installed_version: String,
    pub update_available: bool,
}

/// The version recorded for `id`.
pub open spec fn id_version(pairs: Seq<(String, String)>, id: Seq<char>) -> Option<Seq<char>> {
    if has_id(pairs, id) {
        Some(pairs[choose|i: int| 0 <= i < pairs.len() && #[trigger] pairs[i].0@ == id].1@)
    } else {
        None
    }
}

/// The install state of the market script `id` at `version`, given the
/// installed versions by id.
pub fn market_install_state(installed: &Vec<(String, String)>, id: &str, version: &str) -> (r:
    MarketInstallState)
    requires
        ids_sorted(installed@),
    ensures
        match id_version(installed@, id@) {
            Some(v) => r.installed_version@ == v && r.installed == (v.len() > 0) && r.update_available
                == (v.len() > 0 && v != version@),
            None => r.installed_version@ == Seq::<char>::empty() && !r.installed && !r.update_available,
        },
{
    let key = chars_of(id);
    match id_position(installed, &key) {
        Some(i) => {
            proof {
                let c = choose|c: int| 0 <= c < installed@.len() && #[trigger] installed@[c].0@ == id@;
                if c != i {
                    if c < i {
                        lemma_lex_asymmetric(installed@[c].0@, installed@[i as int].0@);
                    } else {
                        lemma_lex_asymmetric(installed@[i as int].0@, installed@[c].0@);
                    }
                }
            }
            let v = chars_of(installed[i].1.as_str());
            let is_installed = v.len() > 0;
            MarketInstallState {
                installed: is_installed,
                installed_version: installed[i].1.clone(),
                update_available: is_installed && !vec_eq_str(&v, version),
            }
        },
        None => MarketInstallState {
            installed: false,
            installed_version: String::new(),
            update_available: false,
        },
    }
}

/// The two ways the manager writes a relay profile into the Codex home.
#[derive(Debug, Clone, Copy, PartialEq, Eq, Structural)]
pub enum RelayApplyMode {
    /// A relay in front of the ChatGPT login.
    Relay,
    /// A custom provider with its own API key.
    PureApi,
}

/// What applying a relay profile does next.
#[derive(Debug, Clone, Copy, PartialEq, Eq)]
pub enum RelayApplyStep {
    /// The profiles switch is off: nothing is written.
    Disabled,
    /// The profile carries its files: switch to them.
    SwitchProfileFiles,
    /// A relay needs the ChatGPT login; check it first.
    CheckLogin,
    /// No login: nothing is written.
    NeedLogin,
    /// Write the relay's base URL and key.
    WriteConfig,
}

pub open spec fn apply_step(mode: RelayApplyMode, profiles_enabled: bool, complete_files: bool) -> RelayApplyStep {
    if !profiles_enabled {
        RelayApplyStep::Disabled
    } else if complete_files {
        RelayApplyStep::SwitchProfileFiles
    } else if mode == RelayApplyMode::Relay {
        RelayApplyStep::CheckLogin
    } else {
        RelayApplyStep::WriteConfig
    }
}

/// The first decision of applying a relay profile, in either mode.
pub fn relay_apply_step(mode: RelayApplyMode, profiles_enabled: bool, complete_files: bool) -> (r:
    RelayApplyStep)
    ensures
        r == apply_step(mode, profiles_enabled, complete_files),
{
    if !profiles_enabled {
        RelayApplyStep::Disabled
    } else if complete_files {
        RelayApplyStep::SwitchProfileFiles
    } else {
        match mode {
            RelayApplyMode::Relay => RelayApplyStep::CheckLogin,
            RelayApplyMode::PureApi => RelayApplyStep::WriteConfig,
        }
    }
}

/// After the login check: write with a login, stop without one.
pub fn relay_login_step(authenticated: bool) -> (r: RelayApplyStep)
    ensures
        r == if authenticated {
            RelayApplyStep::WriteConfig
        } else {
            RelayApplyStep::NeedLogin
        },
{
    if authenticated {
        RelayApplyStep::WriteConfig
    } else {
        RelayApplyStep::NeedLogin
    }
}

/// How applying a profile ends: whether it succeeded, the message, and
/// whether the backup of the replaced files is reported.
#[derive(Debug)]
pub struct RelayApplyOutcome {
    pub ok: bool,
    pub message: String,
    pub report_backup: bool,
}

pub open spec fn incomplete_pure_api_message() -> Seq<char> {
    "纯 API 配置写入后未检测到完整 custom provider，请检查 config.toml 和供应商 API Key。"@
}

/// The outcome once `step` ran: `written` is `Ok(configured)` when the
/// files were written (with whether the home now holds a complete custom
/// provider), or the error's text.
pub open spec fn apply_outcome(
    mode: RelayApplyMode,
    step: RelayApplyStep,
    written: Result<bool, Seq<char>>,
) -> (bool, Seq<char>, bool) {
    match step {
        RelayApplyStep::Disabled => (false, "供应商配置总开关已关闭，未写入 config.toml / auth.json。"@, false),
        RelayApplyStep::NeedLogin | RelayApplyStep::CheckLogin => (
            false,
            "未检测到 ChatGPT 登录状态，已停止写入中转配置。"@,
            false,
        ),
        RelayApplyStep::SwitchProfileFiles => match written {
            Ok(configured) => if mode == RelayApplyMode::PureApi && !configured {
                (false, incomplete_pure_api_message(), true)
            } else {
                (true, "已按兼容切换规则切换供应商。"@, true)
            },
            Err(e) => if mode == RelayApplyMode::Relay {
                (false, "切换完整中转配置失败："@ + e, false)
            } else {
                (false, "切换纯 API 配置失败："@ + e, false)
            },
        },
        RelayApplyStep::WriteConfig => match written {
            Ok(configured) => if mode == RelayApplyMode::Relay {
                (true, "中转配置已写入，密钥未在界面明文显示。"@, true)
            } else if !configured {
                (false, incomplete_pure_api_message(), true)
            } else {
                (
                    true,
                    "纯 API 模式已写入：config.toml 已写入 custom provider，auth.json 已切换为当前供应商。"@,
                    true,
                )
            },
            Err(e) => if mode == RelayApplyMode::Relay {
                (false, "写入中转配置失败："@ + e, false)
            } else {
                (false, "写入纯 API 模式失败："@ + e, false)
            },
        },
    }
}

fn concat(prefix: &str, rest: &str) -> (r: String)
    ensures
        r@ == prefix@ + rest@,
{
    let mut out = chars_of(prefix);
    push_str(&mut out, rest);
    string_from_chars(&out)
}

/// The answer to applying a relay profile, in either mode.
pub fn relay_apply_outcome(mode: RelayApplyMode, step: RelayApplyStep, written: Result<bool, &str>) -> (r:
    RelayApplyOutcome)
    ensures
        (r.ok, r.message@, r.report_backup) == apply_outcome(
            mode,
            step,
            match written {
                Ok(c) => Ok(c),
                Err(e) => Err(e@),
            },
        ),
{
    match step {
        RelayApplyStep::Disabled => RelayApplyOutcome {
            ok: false,
            message: owned("供应商配置总开关已关闭，未写入 config.toml / auth.json。"),
            report_backup: false,
        },
        RelayApplyStep::NeedLogin | RelayApplyStep::CheckLogin => RelayApplyOutcome {
            ok: false,
            message: owned("未检测到 ChatGPT 登录状态，已停止写入中转配置。"),
            report_backup: false,
        },
        RelayApplyStep::SwitchProfileFiles => match written {
            Ok(configured) => {
                if mode == RelayApplyMode::PureApi && !configured {
                    RelayApplyOutcome {
                        ok: false,
                        message: owned(
                            "纯 API 配置写入后未检测到完整 custom provider，请检查 config.toml 和供应商 API Key。",
                        ),
                        report_backup: true,
                    }
                } else {
                    RelayApplyOutcome {
                        ok: true,
                        message: owned("已按兼容切换规则切换供应商。"),
                        report_backup: true,
                    }
                }
            },
            Err(e) => RelayApplyOutcome {
                ok: false,
                message: match mode {
                    RelayApplyMode::Relay => concat("切换完整中转配置失败：", e),
                    RelayApplyMode::PureApi => concat("切换纯 API 配置失败：", e),
                },
                report_backup: false,
            },
        },
        RelayApplyStep::WriteConfig => match written {
            Ok(configured) => match mode {
                RelayApplyMode::Relay => RelayApplyOutcome {
                    ok: true,
                    message: owned("中转配置已写入，密钥未在界面明文显示。"),
                    report_backup: true,
                },
                RelayApplyMode::PureApi => if !configured {
                    RelayApplyOutcome {
                        ok: false,
                        message: owned(
                            "纯 API 配置写入后未检测到完整 custom provider，请检查 config.toml 和供应商 API Key。",
                        ),
                        report_backup: true,
                    }
                } else {
                    RelayApplyOutcome {
                        ok: true,
                        message: owned(
                            "纯 API 模式已写入：config.toml 已写入 custom provider，auth.json 已切换为当前供应商。",
                        ),
                        report_backup: true,
                    }
                },
            },
            Err(e) => RelayApplyOutcome {
                ok: false,
                message: match mode {
                    RelayApplyMode::Relay => concat("写入中转配置失败：", e),
                    RelayApplyMode::PureApi => concat("写入纯 API 模式失败：", e),
                },
                report_backup: false,
            },
        },
    }
}

/// Whether a profile's `auth.json` is kept when the relay is cleared: for
/// an official profile without a mixed-in key, when it has one.
pub fn clear_relay_auth_contents(official_mode: bool, official_mix_api_key: bool, auth_contents: &str) -> (r:
    Option<String>)
    ensures
        match r {
            Some(a) => official_mode && !official_mix_api_key && trim(auth_contents@).len() > 0
                && a@ == auth_contents@,
            None => !(official_mode && !official_mix_api_key && trim(auth_contents@).len() > 0),
        },
{
    if official_mode && !official_mix_api_key && trim_vec(&chars_of(auth_contents)).len() > 0 {
        Some(owned(auth_contents))
    } else {
        None
    }
}

} // verus!
