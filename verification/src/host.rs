//! The launcher's side of the mobile relay: what a request from the phone
//! asks for, the HTTP request it becomes for the helper, and the sessions
//! it keeps with the app server.
use vstd::prelude::*;
use vstd::string::StringSliceAdditionalSpecFns;
use crate::json::{as_bool, as_str, get, get_opt, JsonValue};
use crate::rooms::FrameKind;
use crate::text::{
    chars_of, decimal, owned, push_decimal, push_str, push_all, starts_with, string_from_chars,
    upper_seq, upper_vec, vec_eq, vec_eq_str,
};

verus! {

/// What a request from the phone asks the host to do.
#[derive(Debug, Clone, Copy, PartialEq, Eq)]
pub enum HostRequestKind {
    AppServerConnect,
    AppServerMessage,
    AppServerClose,
    HttpRequest,
    Ignored,
}

pub open spec fn request_kind(request: JsonValue) -> HostRequestKind {
    let t = as_str(get(request, "type"@));
    if t == Some("appServerConnect"@) {
        HostRequestKind::AppServerConnect
    } else if t == Some("appServerMessage"@) {
        HostRequestKind::AppServerMessage
    } else if t == Some("appServerClose"@) {
        HostRequestKind::AppServerClose
    } else if t == Some("httpRequest"@) {
        HostRequestKind::HttpRequest
    } else {
        HostRequestKind::Ignored
    }
}

fn str_member<'a>(value: &'a JsonValue, key: &str) -> (r: Option<&'a str>)
    ensures
        match r {
            Some(s) => as_str(get(*value, key@)) == Some(s@),
            None => as_str(get(*value, key@)) is None,
        },
{
    match value.get(key) {
        Some(v) => v.as_str(),
        None => None,
    }
}

/// The kind of request a relayed host message carries.
pub fn host_request_kind(request: &JsonValue) -> (r: HostRequestKind)
    ensures
        r == request_kind(*request),
{
    match str_member(request, "type") {
        Some(t) => {
            let v = chars_of(t);
            if vec_eq_str(&v, "appServerConnect") {
                HostRequestKind::AppServerConnect
            } else if vec_eq_str(&v, "appServerMessage") {
                HostRequestKind::AppServerMessage
            } else if vec_eq_str(&v, "appServerClose") {
                HostRequestKind::AppServerClose
            } else if vec_eq_str(&v, "httpRequest") {
                HostRequestKind::HttpRequest
            } else {
                HostRequestKind::Ignored
            }
        },
        None => HostRequestKind::Ignored,
    }
}

/// The method of a proxied request: its `method`, upper-cased, or `GET`.
pub open spec fn wire_method(request: JsonValue) -> Seq<char> {
    match as_str(get(request, "method"@)) {
        Some(m) => upper_seq(m),
        None => "GET"@,
    }
}

/// The path of a proxied request: its `path` when it starts with `/`,
/// otherwise `/`.
pub open spec fn wire_path(request: JsonValue) -> Seq<char> {
    match as_str(get(request, "path"@)) {
        Some(p) => if starts_with(p, "/"@) {
            p
        } else {
            "/"@
        },
        None => "/"@,
    }
}

pub open spec fn wire_body(request: JsonValue) -> Seq<char> {
    match as_str(get(request, "body"@)) {
        Some(b) => b,
        None => Seq::empty(),
    }
}

/// The content type of a proxied request: its `content-type` header, else
/// its `Content-Type` header, else JSON.
pub open spec fn wire_content_type(request: JsonValue) -> Seq<char> {
    let headers = get(request, "headers"@);
    let value = match get_opt(headers, "content-type"@) {
        Some(v) => Some(v),
        None => get_opt(headers, "Content-Type"@),
    };
    match as_str(value) {
        Some(c) => c,
        None => "application/json; charset=utf-8"@,
    }
}

/// The HTTP request that a phone's `httpRequest` becomes for the helper on
/// `helper_port`.
pub open spec fn wire_request(request: JsonValue, helper_port: u16) -> Seq<char> {
    wire_method(request) + " "@ + wire_path(request) + " HTTP/1.1\r\nHost: 127.0.0.1:"@ + decimal(
        helper_port as nat,
    ) + "\r\nContent-Type: "@ + wire_content_type(request) + "\r\nContent-Length: "@ + decimal(
        vstd::utf8::encode_utf8(wire_body(request)).len(),
    ) + "\r\nConnection: close\r\n\r\n"@ + wire_body(request)
}

/// The bytes a relayed HTTP request is written to the helper as.
pub fn mobile_relay_http_wire(request: &JsonValue, helper_port: u16) -> (r: String)
    ensures
        r@ == wire_request(*request, helper_port),
{
    let method: Vec<char> = match str_member(request, "method") {
        Some(m) => upper_vec(&chars_of(m)),
        None => chars_of("GET"),
    };
    let path: Vec<char> = match str_member(request, "path") {
        Some(p) => {
            let v = chars_of(p);
            if crate::text::starts_with_vec(&v, &chars_of("/")) {
                v
            } else {
                chars_of("/")
            }
        },
        None => chars_of("/"),
    };
    let body: &str = match str_member(request, "body") {
        Some(b) => b,
        None => {
            proof {
                reveal_strlit("");
            }
            ""
        },
    };
    assert(body@ == wire_body(*request));
    let headers = request.get("headers");
    let value = match headers {
        Some(h) => match h.get("content-type") {
            Some(v) => Some(v),
            None => h.get("Content-Type"),
        },
        None => None,
    };
    let content_type: &str = match value {
        Some(v) => match v.as_str() {
            Some(c) => c,
            None => "application/json; charset=utf-8",
        },
        None => "application/json; charset=utf-8",
    };
    let body_len = body.as_bytes().len();
    let mut out: Vec<char> = Vec::new();
    push_all(&mut out, &method);
    push_str(&mut out, " ");
    push_all(&mut out, &path);
    push_str(&mut out, " HTTP/1.1\r\nHost: 127.0.0.1:");
    push_decimal(&mut out, helper_port as u64);
    push_str(&mut out, "\r\nContent-Type: ");
    push_str(&mut out, content_type);
    push_str(&mut out, "\r\nContent-Length: ");
    push_decimal(&mut out, body_len as u64);
    push_str(&mut out, "\r\nConnection: close\r\n\r\n");
    push_str(&mut out, body);
    proof {
        assert(method@ == wire_method(*request));
        assert(path@ == wire_path(*request));
        assert(content_type@ == wire_content_type(*request));
        assert(body_len as u64 as nat == vstd::utf8::encode_utf8(wire_body(*request)).len());
        assert(helper_port as u64 as nat == helper_port as nat);
        assert(out@ =~= wire_request(*request, helper_port));
    }
    string_from_chars(&out)
}

/// The session an `appServerConnect` names: its `sessionId` when it is a
/// string that is not empty. Without one the host makes a fresh id.
pub fn requested_session_id(request: &JsonValue) -> (r: Option<String>)
    ensures
        match as_str(get(*request, "sessionId"@)) {
            Some(id) => if id.len() > 0 {
                r matches Some(s) && s@ == id
            } else {
                r is None
            },
            None => r is None,
        },
{
    match str_member(request, "sessionId") {
        Some(id) => {
            let v = chars_of(id);
            if v.len() > 0 {
                Some(string_from_chars(&v))
            } else {
                None
            }
        },
        None => None,
    }
}

/// The session and text of an `appServerMessage`; both must be strings.
pub fn app_server_message_parts(request: &JsonValue) -> (r: Option<(String, String)>)
    ensures
        match (as_str(get(*request, "sessionId"@)), as_str(get(*request, "message"@))) {
            (Some(id), Some(text)) => r matches Some((a, b)) && a@ == id && b@ == text,
            _ => r is None,
        },
{
    let id = match str_member(request, "sessionId") {
        Some(id) => id,
        None => return None,
    };
    let text = match str_member(request, "message") {
        Some(t) => t,
        None => return None,
    };
    Some((owned(id), owned(text)))
}

/// `runtime_evaluate_result_is_true`: `result.result.value` is `true`.
pub fn runtime_evaluate_result_is_true(result: &JsonValue) -> (r: bool)
    ensures
        r == (as_bool(get_opt(get_opt(get(*result, "result"@), "result"@), "value"@)) == Some(true)),
{
    let outer = match result.get("result") {
        Some(v) => v,
        None => return false,
    };
    let inner = match outer.get("result") {
        Some(v) => v,
        None => return false,
    };
    match inner.get("value") {
        Some(v) => match v.as_bool() {
            Some(b) => b,
            None => false,
        },
        None => false,
    }
}

/// The thread an app-server event is about: the first of `threadId`,
/// `thread_id`, `thread.id`, `turn.threadId`, `turn.thread_id`,
/// `item.threadId` and `item.thread_id` in its `params` that is present, if
/// it is a string.
pub open spec fn event_thread_id(message: JsonValue) -> Option<Seq<char>> {
    let params = get(message, "params"@);
    let candidates = seq![
        get_opt(params, "threadId"@),
        get_opt(params, "thread_id"@),
        get_opt(get_opt(params, "thread"@), "id"@),
        get_opt(get_opt(params, "turn"@), "threadId"@),
        get_opt(get_opt(params, "turn"@), "thread_id"@),
        get_opt(get_opt(params, "item"@), "threadId"@),
        get_opt(get_opt(params, "item"@), "thread_id"@)
    ];
    if params is None {
        None
    } else {
        as_str(first_present(candidates))
    }
}

/// The first candidate that is present.
pub open spec fn first_present(candidates: Seq<Option<JsonValue>>) -> Option<JsonValue>
    decreases candidates.len(),
{
    if candidates.len() == 0 {
        None
    } else if candidates[0] is Some {
        candidates[0]
    } else {
        first_present(candidates.drop_first())
    }
}

fn member_of_opt<'a>(value: Option<&'a JsonValue>, key: &str) -> (r: Option<&'a JsonValue>)
    ensures
        match r {
            Some(v) => get_opt(
                match value {
                    Some(x) => Some(*x),
                    None => None,
                },
                key@,
            ) == Some(*v),
            None => get_opt(
                match value {
                    Some(x) => Some(*x),
                    None => None,
                },
                key@,
            ) is None,
        },
{
    match value {
        Some(v) => v.get(key),
        None => None,
    }
}

/// `app_server_event_thread_id`.
pub fn app_server_event_thread_id(message: &JsonValue) -> (r: Option<String>)
    ensures
        match event_thread_id(*message) {
            Some(t) => r matches Some(s) && s@ == t,
            None => r is None,
        },
{
    let params = match message.get("params") {
        Some(p) => p,
        None => return None,
    };
    let p = Some(params);
    let c0 = member_of_opt(p, "threadId");
    let c1 = member_of_opt(p, "thread_id");
    let c2 = member_of_opt(member_of_opt(p, "thread"), "id");
    let c3 = member_of_opt(member_of_opt(p, "turn"), "threadId");
    let c4 = member_of_opt(member_of_opt(p, "turn"), "thread_id");
    let c5 = member_of_opt(member_of_opt(p, "item"), "threadId");
    let c6 = member_of_opt(member_of_opt(p, "item"), "thread_id");
    let found = if c0.is_some() {
        c0
    } else if c1.is_some() {
        c1
    } else if c2.is_some() {
        c2
    } else if c3.is_some() {
        c3
    } else if c4.is_some() {
        c4
    } else if c5.is_some() {
        c5
    } else {
        c6
    };
    proof {
        reveal_with_fuel(first_present, 8);
    }
    match found {
        Some(v) => match v.as_str() {
            Some(s) => Some(owned(s)),
            None => None,
        },
        None => None,
    }
}

/// The app-server methods that end a turn.
pub open spec fn turn_end_method(method: Seq<char>) -> bool {
    method == "turn/completed"@ || method == "turn/failed"@ || method == "turn/cancelled"@
        || method == "thread/status/changed"@
}

/// The thread states that `thread/status/changed` ends a turn with.
pub open spec fn idle_status(status: Option<Seq<char>>) -> bool {
    status == Some("idle"@) || status == Some("completed"@) || status == Some("failed"@) || status
        == Some("cancelled"@)
}

/// Whether an app-server event ends the turn of `thread_id` (of any thread
/// when none is given). `message_text` is the event's JSON text, searched
/// for the thread id when the event names no thread.
pub open spec fn turn_finished(message: JsonValue, message_text: Seq<char>, thread_id: Option<Seq<char>>) -> bool {
    let method = match as_str(get(message, "method"@)) {
        Some(m) => m,
        None => Seq::empty(),
    };
    if !turn_end_method(method) {
        false
    } else if method == "thread/status/changed"@ && !idle_status(
        as_str(get_opt(get(message, "params"@), "status"@)),
    ) {
        false
    } else {
        match thread_id {
            None => true,
            Some(expected) => match event_thread_id(message) {
                Some(actual) => actual == expected,
                None => crate::text::contains(message_text, expected),
            },
        }
    }
}

/// A completed, failed or cancelled turn ends the turn of the thread it
/// names, and of any thread when none is awaited; an event without a
/// method ends nothing.
pub proof fn law_turn_end_events(message: JsonValue, message_text: Seq<char>, expected: Seq<char>)
    ensures
        ({
            let m = as_str(get(message, "method"@));
            (m == Some("turn/completed"@) || m == Some("turn/failed"@) || m == Some(
                "turn/cancelled"@,
            )) ==> (event_thread_id(message) == Some(expected) ==> turn_finished(
                message,
                message_text,
                Some(expected),
            )) && turn_finished(message, message_text, None)
        }),
        as_str(get(message, "method"@)) is None ==> !turn_finished(
            message,
            message_text,
            Some(expected),
        ) && !turn_finished(message, message_text, None),
{
    reveal_strlit("turn/completed");
    reveal_strlit("turn/failed");
    reveal_strlit("turn/cancelled");
    reveal_strlit("thread/status/changed");
    assert("turn/completed"@.len() == 14 && "turn/failed"@.len() == 11 && "turn/cancelled"@.len()
        == 14 && "thread/status/changed"@.len() == 21);
    assert(!turn_end_method(Seq::<char>::empty()));
}

/// `app_server_turn_finished_for_thread`; `message_text` is the event
/// serialised as JSON.
pub fn app_server_turn_finished_for_thread(
    message: &JsonValue,
    message_text: &str,
    thread_id: Option<&str>,
) -> (r: bool)
    ensures
        r == turn_finished(
            *message,
            message_text@,
            match thread_id {
                Some(t) => Some(t@),
                None => None,
            },
        ),
{
    let method = match str_member(message, "method") {
        Some(m) => chars_of(m),
        None => Vec::new(),
    };
    let is_status = vec_eq_str(&method, "thread/status/changed");
    if !(vec_eq_str(&method, "turn/completed") || vec_eq_str(&method, "turn/failed") || vec_eq_str(
        &method,
        "turn/cancelled",
    ) || is_status) {
        return false;
    }
    if is_status {
        let status = match message.get("params") {
            Some(p) => str_member(p, "status"),
            None => None,
        };
        let idle = match status {
            Some(s) => {
                let v = chars_of(s);
                vec_eq_str(&v, "idle") || vec_eq_str(&v, "completed") || vec_eq_str(&v, "failed")
                    || vec_eq_str(&v, "cancelled")
            },
            None => false,
        };
        if !idle {
            return false;
        }
    }
    let expected = match thread_id {
        Some(t) => t,
        None => return true,
    };
    match app_server_event_thread_id(message) {
        Some(actual) => vec_eq(&chars_of(actual.as_str()), &chars_of(expected)),
        None => crate::text::contains_vec(&chars_of(message_text), &chars_of(expected)),
    }
}

/// The wait before the host reconnects to the relay: twice the last wait,
/// at most 30 seconds.
pub fn next_retry_delay_ms(delay_ms: u64) -> (r: u64)
    ensures
        r == if delay_ms * 2 < 30000 {
            delay_ms * 2
        } else {
            30000
        },
{
    if delay_ms < 15000 {
        delay_ms * 2
    } else {
        30000
    }
}

pub open spec fn is_model_sep(c: char) -> bool {
    c == '\r' || c == '\n' || c == ','
}

/// Reading `s[..i]` split at `\r`, `\n` and `,`: the finished pieces and
/// the piece being read.
pub open spec fn split_state(s: Seq<char>, i: int) -> (Seq<Seq<char>>, Seq<char>)
    decreases i,
{
    if i <= 0 {
        (Seq::empty(), Seq::empty())
    } else {
        let (done, cur) = split_state(s, i - 1);
        if is_model_sep(s[i - 1]) {
            (done.push(cur), Seq::empty())
        } else {
            (done, cur.push(s[i - 1]))
        }
    }
}

/// `s.split(['\r', '\n', ','])`.
pub open spec fn model_pieces(s: Seq<char>) -> Seq<Seq<char>> {
    let (done, cur) = split_state(s, s.len() as int);
    done.push(cur)
}

/// The model names of the candidates: trimmed, not blank, each once, in the
/// order they first appear.
pub open spec fn catalog_models(candidates: Seq<Seq<char>>) -> Seq<Seq<char>>
    decreases candidates.len(),
{
    if candidates.len() == 0 {
        Seq::empty()
    } else {
        let acc = catalog_models(candidates.drop_last());
        let t = crate::text::trim(candidates.last());
        if t.len() == 0 || acc.contains(t) {
            acc
        } else {
            acc.push(t)
        }
    }
}

/// The model catalog the mobile page offers.
#[derive(Debug)]
pub struct ModelCatalog {
    pub status: String,
    pub model: String,
    pub model_provider: String,
    pub provider_name: String,
    pub default_model: String,
    pub models: Vec<String>,
}

pub open spec fn catalog_of(model_list: Seq<char>, model: Seq<char>) -> Seq<Seq<char>> {
    catalog_models(model_pieces(model_list).push(model))
}

pub open spec fn string_views(v: Seq<String>) -> Seq<Seq<char>> {
    v.map_values(|s: String| s@)
}

/// The model catalog shown on the phone, for the active profile's model
/// list, model, id and name.
pub fn mobile_model_catalog(model_list: &str, model: &str, id: &str, name: &str) -> (r: ModelCatalog)
    ensures
        string_views(r.models@) == catalog_of(model_list@, model@),
        r.status@ == (if catalog_of(model_list@, model@).len() == 0 {
            "not_configured"@
        } else {
            "ok"@
        }),
        r.model@ == crate::text::trim(model@),
        r.model_provider@ == crate::text::trim(id@),
        r.provider_name@ == (if crate::text::trim(name@).len() == 0 {
            crate::text::trim(id@)
        } else {
            crate::text::trim(name@)
        }),
        r.default_model@ == (if catalog_of(model_list@, model@).contains(model@) {
            crate::text::trim(model@)
        } else if catalog_of(model_list@, model@).len() > 0 {
            catalog_of(model_list@, model@)[0]
        } else {
            Seq::empty()
        }),
{
    let list = chars_of(model_list);
    let mut pieces: Vec<Vec<char>> = Vec::new();
    let mut cur: Vec<char> = Vec::new();
    let mut i: usize = 0;
    while i < list.len()
        invariant
            i <= list@.len(),
            crate::text::char_views(pieces@) == split_state(list@, i as int).0,
            cur@ == split_state(list@, i as int).1,
        decreases list.len() - i,
    {
        let c = list[i];
        if c == '\r' || c == '\n' || c == ',' {
            let ghost before = crate::text::char_views(pieces@);
            let mut piece: Vec<char> = Vec::new();
            push_all(&mut piece, &cur);
            pieces.push(piece);
            cur = Vec::new();
            proof {
                assert(crate::text::char_views(pieces@) =~= before.push(split_state(list@, i as int).1));
                assert(cur@ =~= Seq::<char>::empty());
            }
        } else {
            cur.push(c);
        }
        i = i + 1;
    }
    pieces.push(cur);
    pieces.push(chars_of(model));
    let ghost cands = crate::text::char_views(pieces@);
    proof {
        assert(cands =~= model_pieces(model_list@).push(model@));
    }
    let mut models: Vec<String> = Vec::new();
    let mut k: usize = 0;
    while k < pieces.len()
        invariant
            k <= pieces@.len(),
            cands == crate::text::char_views(pieces@),
            string_views(models@) == catalog_models(cands.take(k as int)),
        decreases pieces.len() - k,
    {
        let t = crate::text::trim_vec(&pieces[k]);
        proof {
            assert(cands.take(k + 1).drop_last() =~= cands.take(k as int));
            assert(cands.take(k + 1).last() == pieces@[k as int]@);
        }
        if t.len() > 0 {
            let mut seen = false;
            let mut j: usize = 0;
            while j < models.len()
                invariant
                    j <= models@.len(),
                    seen == exists|q: int| 0 <= q < j && #[trigger] models@[q]@ == t@,
                decreases models.len() - j,
            {
                if vec_eq(&chars_of(models[j].as_str()), &t) {
                    seen = true;
                }
                j = j + 1;
            }
            proof {
                let acc = string_views(models@);
                if seen {
                    let q = choose|q: int| 0 <= q < models@.len() && #[trigger] models@[q]@ == t@;
                    assert(acc[q] == t@);
                } else {
                    assert(!acc.contains(t@)) by {
                        if acc.contains(t@) {
                            let q = choose|q: int| 0 <= q < acc.len() && acc[q] == t@;
                            assert(models@[q]@ == t@);
                        }
                    }
                }
            }
            if !seen {
                let ghost before = models@;
                models.push(string_from_chars(&t));
                proof {
                    assert(string_views(models@) =~= string_views(before).push(t@));
                }
            }
        }
        k = k + 1;
    }
    proof {
        assert(cands.take(cands.len() as int) =~= cands);
    }
    let ghost names = string_views(models@);
    let m = chars_of(model);
    let mut listed = false;
    let mut j: usize = 0;
    while j < models.len()
        invariant
            j <= models@.len(),
            names == string_views(models@),
            m@ == model@,
            listed == exists|q: int| 0 <= q < j && #[trigger] models@[q]@ == model@,
        decreases models.len() - j,
    {
        if vec_eq(&chars_of(models[j].as_str()), &m) {
            listed = true;
        }
        j = j + 1;
    }
    proof {
        if listed {
            let q = choose|q: int| 0 <= q < models@.len() && #[trigger] models@[q]@ == model@;
            assert(names[q] == model@);
        } else {
            if names.contains(model@) {
                let q = choose|q: int| 0 <= q < names.len() && names[q] == model@;
                assert(models@[q]@ == model@);
            }
        }
    }
    let default_model = if listed {
        crate::text::trim_str(model)
    } else if models.len() > 0 {
        models[0].clone()
    } else {
        String::new()
    };
    let trimmed_name = crate::text::trim_vec(&chars_of(name));
    let provider_name = if trimmed_name.len() == 0 {
        crate::text::trim_str(id)
    } else {
        string_from_chars(&trimmed_name)
    };
    let status = if models.len() == 0 {
        owned("not_configured")
    } else {
        owned("ok")
    };
    ModelCatalog {
        status,
        model: crate::text::trim_str(model),
        model_provider: crate::text::trim_str(id),
        provider_name,
        default_model,
        models,
    }
}

/// The catalog offers each model once, trimmed and not blank.
pub proof fn law_catalog_models_distinct(candidates: Seq<Seq<char>>)
    ensures
        forall|p: int, q: int|
            0 <= p < q < catalog_models(candidates).len() ==> catalog_models(candidates)[p]
                != catalog_models(candidates)[q],
        forall|p: int|
            0 <= p < catalog_models(candidates).len() ==> crate::text::trim(
                #[trigger] catalog_models(candidates)[p],
            ) == catalog_models(candidates)[p] && catalog_models(candidates)[p].len() > 0,
    decreases candidates.len(),
{
    if candidates.len() > 0 {
        law_catalog_models_distinct(candidates.drop_last());
        let acc = catalog_models(candidates.drop_last());
        let t = crate::text::trim(candidates.last());
        crate::text::lemma_trim_idempotent(candidates.last());
        if !(t.len() == 0 || acc.contains(t)) {
            let r = acc.push(t);
            assert forall|p: int, q: int| 0 <= p < q < r.len() implies r[p] != r[q] by {
                if q == acc.len() {
                    assert(r[p] == acc[p]);
                    assert(acc.contains(acc[p]));
                }
            }
        }
    }
}

/// What the host does with a frame from the app server.
#[derive(Debug, Clone, Copy, PartialEq, Eq)]
pub enum FrameAction {
    /// Seal the text and send it to the phone.
    Relay,
    /// Ignore the frame.
    Skip,
    /// The app server closed: end the session.
    Stop,
    /// A binary frame that is not UTF-8: end the session with an error.
    Fail,
}

pub open spec fn frame_action(kind: FrameKind, utf8: bool) -> FrameAction {
    match kind {
        FrameKind::Text => FrameAction::Relay,
        FrameKind::Binary => if utf8 {
            FrameAction::Relay
        } else {
            FrameAction::Fail
        },
        FrameKind::Close => FrameAction::Stop,
        _ => FrameAction::Skip,
    }
}

/// What an app-server session does with a frame from the app server;
/// `utf8` says whether a binary frame's bytes are UTF-8.
pub fn app_server_frame_action(kind: FrameKind, utf8: bool) -> (r: FrameAction)
    ensures
        r == frame_action(kind, utf8),
{
    match kind {
        FrameKind::Text => FrameAction::Relay,
        FrameKind::Binary => if utf8 {
            FrameAction::Relay
        } else {
            FrameAction::Fail
        },
        FrameKind::Close => FrameAction::Stop,
        _ => FrameAction::Skip,
    }
}

/// Why an app-server RPC answer is not read as JSON text.
#[derive(Debug, Clone, Copy, PartialEq, Eq)]
pub enum RpcFrameError {
    /// A binary frame that is not UTF-8.
    NonUtf8Binary,
    /// The connection closed.
    Closed,
    /// A ping, pong or raw frame.
    Unsupported,
}

/// Which app-server frames carry the text of an RPC answer.
pub fn app_server_rpc_frame(kind: FrameKind, utf8: bool) -> (r: Result<(), RpcFrameError>)
    ensures
        r == match kind {
            FrameKind::Text => Ok(()),
            FrameKind::Binary => if utf8 {
                Ok(())
            } else {
                Err(RpcFrameError::NonUtf8Binary)
            },
            FrameKind::Close => Err(RpcFrameError::Closed),
            _ => Err(RpcFrameError::Unsupported),
        },
{
    match kind {
        FrameKind::Text => Ok(()),
        FrameKind::Binary => if utf8 {
            Ok(())
        } else {
            Err(RpcFrameError::NonUtf8Binary)
        },
        FrameKind::Close => Err(RpcFrameError::Closed),
        _ => Err(RpcFrameError::Unsupported),
    }
}

} // verus!
