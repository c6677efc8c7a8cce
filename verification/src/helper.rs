//! The helper's HTTP server: when a request has been read whole, which
//! handler a request goes to, and the heads of its responses.
use vstd::prelude::*;
use crate::http::{content_length_from_headers, crlf2_at, find_header_end, header_number, lossy_text, utf8_lossy};
use crate::mobile::{words, words_vec};
use crate::paths::{extension, path_extension};
use crate::text::{
    chars_of, decimal, find_char, lemma_find_char, lines, lines_vec, lower_seq, lower_vec, push_decimal,
    push_range, push_str, split_once_index, string_from_chars, trim, trim_vec, vec_eq_str,
};

verus! {

/// The largest request the helper reads: 32 MiB.
pub open spec fn max_request_bytes() -> nat {
    32 * 1024 * 1024
}

/// Where reading a request stands.
#[derive(Debug, Clone, Copy, PartialEq, Eq)]
pub enum RequestRead {
    /// The head and the body that `Content-Length` announces are in.
    Complete,
    /// More bytes are needed.
    NeedMore,
    /// The buffer passed the size limit first.
    TooLarge,
}

/// The head ends at `end` (the first `\r\n\r\n`) and the buffer holds the
/// body its `Content-Length` (0 when absent) announces.
pub open spec fn holds_request(buffer: Seq<u8>, end: int) -> bool {
    &&& crlf2_at(buffer, end)
    &&& forall|j: int| 0 <= j < end ==> !crlf2_at(buffer, j)
    &&& buffer.len() >= end + 4 + match header_number(
        lines(utf8_lossy(buffer.take(end))),
        "content-length"@,
    ) {
        Some(n) => n as int,
        None => 0,
    }
}

pub open spec fn request_read(buffer: Seq<u8>) -> RequestRead {
    if exists|end: int| holds_request(buffer, end) {
        RequestRead::Complete
    } else if buffer.len() > max_request_bytes() {
        RequestRead::TooLarge
    } else {
        RequestRead::NeedMore
    }
}

/// After each read: is the request complete, too large, or still coming?
pub fn request_read_state(buffer: &[u8]) -> (r: RequestRead)
    ensures
        r == request_read(buffer@),
{
    let complete = match find_header_end(buffer) {
        Some(end) => {
            let mut head: Vec<u8> = Vec::new();
            let mut i: usize = 0;
            while i < end
                invariant
                    i <= end <= buffer@.len(),
                    head@ == buffer@.take(i as int),
                decreases end - i,
            {
                head.push(buffer[i]);
                i = i + 1;
                proof {
                    assert(head@ =~= buffer@.take(i as int));
                }
            }
            let length: usize = match content_length_from_headers(head.as_slice()) {
                Some(n) => n,
                None => 0,
            };
            let done = buffer.len() - end >= 4 && buffer.len() - end - 4 >= length;
            proof {
                if !done {
                    assert forall|e: int| !holds_request(buffer@, e) by {
                        if holds_request(buffer@, e) {
                            if e < end {
                            } else if e > end {
                            }
                        }
                    }
                } else {
                    assert(holds_request(buffer@, end as int));
                }
            }
            done
        },
        None => false,
    };
    if complete {
        RequestRead::Complete
    } else if buffer.len() > 32 * 1024 * 1024 {
        RequestRead::TooLarge
    } else {
        RequestRead::NeedMore
    }
}

/// The method and the path (without query) of a request's first line.
pub open spec fn request_target(request: Seq<char>) -> (Seq<char>, Seq<char>) {
    let first = if lines(request).len() > 0 {
        lines(request)[0]
    } else {
        Seq::empty()
    };
    let ws = words(first);
    let method = if ws.len() > 0 {
        ws[0]
    } else {
        Seq::empty()
    };
    let raw = if ws.len() > 1 {
        ws[1]
    } else {
        Seq::empty()
    };
    let path = match find_char(raw, '?') {
        Some(i) => raw.take(i),
        None => raw,
    };
    (method, path)
}

/// The method and path of the request text `request`.
pub fn helper_request_target(request: &str) -> (r: (String, String))
    ensures
        r.0@ == request_target(request@).0,
        r.1@ == request_target(request@).1,
{
    let all = lines_vec(&chars_of(request));
    let first: Vec<char> = if all.len() > 0 {
        let mut f: Vec<char> = Vec::new();
        crate::text::push_all(&mut f, &all[0]);
        f
    } else {
        Vec::new()
    };
    proof {
        if all@.len() > 0 {
            assert(first@ =~= lines(request@)[0]);
        } else {
            assert(first@ =~= Seq::<char>::empty());
        }
    }
    let ws = words_vec(&first);
    let method: Vec<char> = if ws.len() > 0 {
        let mut m: Vec<char> = Vec::new();
        crate::text::push_all(&mut m, &ws[0]);
        m
    } else {
        Vec::new()
    };
    let raw: Vec<char> = if ws.len() > 1 {
        let mut m: Vec<char> = Vec::new();
        crate::text::push_all(&mut m, &ws[1]);
        m
    } else {
        Vec::new()
    };
    proof {
        assert(method@ =~= request_target(request@).0);
        assert(raw@ =~= (if words(first@).len() > 1 {
            words(first@)[1]
        } else {
            Seq::<char>::empty()
        }));
    }
    let path: Vec<char> = match split_once_index(&raw, '?') {
        Some(i) => {
            let mut p: Vec<char> = Vec::new();
            push_range(&mut p, &raw, 0, i);
            p
        },
        None => raw,
    };
    proof {
        lemma_find_char(raw@, '?');
        if find_char(raw@, '?') is Some {
            assert(path@ =~= raw@.take(find_char(raw@, '?')->0));
        }
    }
    (string_from_chars(&method), string_from_chars(&path))
}

/// The handlers of the helper.
#[derive(Debug, Clone, Copy, PartialEq, Eq)]
pub enum HelperRoute {
    MobilePage,
    AppServerWebsocket,
    AppServerRpc,
    AppServerStatus,
    ResponsesProxy,
    ChatCompletionsProxy,
    ModelsProxy,
    BackendStatus,
    BackendRepair,
    DiagnosticsLog,
    OverlayImage,
    NotFound,
}

pub open spec fn get_or_options(method: Seq<char>) -> bool {
    method == "GET"@ || method == "OPTIONS"@
}

pub open spec fn post_or_options(method: Seq<char>) -> bool {
    method == "POST"@ || method == "OPTIONS"@
}

/// The handler for `method` and `path`; `responses_path`, `chat_path` and
/// `models_path` say whether the protocol proxy claims the path.
pub open spec fn route_for(
    method: Seq<char>,
    path: Seq<char>,
    responses_path: bool,
    chat_path: bool,
    models_path: bool,
) -> HelperRoute {
    if path == "/mobile"@ && get_or_options(method) {
        HelperRoute::MobilePage
    } else if path == "/app-server/ws"@ && get_or_options(method) {
        HelperRoute::AppServerWebsocket
    } else if path == "/app-server/rpc"@ && post_or_options(method) {
        HelperRoute::AppServerRpc
    } else if path == "/app-server/status"@ && get_or_options(method) {
        HelperRoute::AppServerStatus
    } else if responses_path && method == "POST"@ {
        HelperRoute::ResponsesProxy
    } else if chat_path && method == "POST"@ {
        HelperRoute::ChatCompletionsProxy
    } else if models_path && get_or_options(method) {
        HelperRoute::ModelsProxy
    } else if path == "/backend/status"@ && (get_or_options(method) || method == "POST"@) {
        HelperRoute::BackendStatus
    } else if path == "/backend/repair"@ && (get_or_options(method) || method == "POST"@) {
        HelperRoute::BackendRepair
    } else if path == "/diagnostics/log"@ && post_or_options(method) {
        HelperRoute::DiagnosticsLog
    } else if path == "/overlay/image"@ && get_or_options(method) {
        HelperRoute::OverlayImage
    } else {
        HelperRoute::NotFound
    }
}

/// The app-server RPC handler takes exactly the `POST` requests (and their
/// preflights) on its path, whatever the protocol proxy claims.
pub proof fn law_rpc_route(method: Seq<char>, responses_path: bool, chat_path: bool, models_path: bool)
    ensures
        (route_for(method, "/app-server/rpc"@, responses_path, chat_path, models_path)
            == HelperRoute::AppServerRpc) <==> (method == "POST"@ || method == "OPTIONS"@),
{
    reveal_strlit("/app-server/rpc");
    reveal_strlit("/app-server/ws");
    reveal_strlit("/mobile");
    assert("/app-server/rpc"@.len() == 15 && "/app-server/ws"@.len() == 14 && "/mobile"@.len() == 7);
}

/// The handler the helper gives a request.
pub fn helper_route(
    method: &str,
    path: &str,
    responses_path: bool,
    chat_path: bool,
    models_path: bool,
) -> (r: HelperRoute)
    ensures
        r == route_for(method@, path@, responses_path, chat_path, models_path),
{
    let m = chars_of(method);
    let p = chars_of(path);
    let get = vec_eq_str(&m, "GET");
    let post = vec_eq_str(&m, "POST");
    let options = vec_eq_str(&m, "OPTIONS");
    if vec_eq_str(&p, "/mobile") && (get || options) {
        HelperRoute::MobilePage
    } else if vec_eq_str(&p, "/app-server/ws") && (get || options) {
        HelperRoute::AppServerWebsocket
    } else if vec_eq_str(&p, "/app-server/rpc") && (post || options) {
        HelperRoute::AppServerRpc
    } else if vec_eq_str(&p, "/app-server/status") && (get || options) {
        HelperRoute::AppServerStatus
    } else if responses_path && post {
        HelperRoute::ResponsesProxy
    } else if chat_path && post {
        HelperRoute::ChatCompletionsProxy
    } else if models_path && (get || options) {
        HelperRoute::ModelsProxy
    } else if vec_eq_str(&p, "/backend/status") && (get || options || post) {
        HelperRoute::BackendStatus
    } else if vec_eq_str(&p, "/backend/repair") && (get || options || post) {
        HelperRoute::BackendRepair
    } else if vec_eq_str(&p, "/diagnostics/log") && (post || options) {
        HelperRoute::DiagnosticsLog
    } else if vec_eq_str(&p, "/overlay/image") && (get || options) {
        HelperRoute::OverlayImage
    } else {
        HelperRoute::NotFound
    }
}

/// The headers that let the Codex renderer call the helper.
pub open spec fn cors_headers() -> Seq<char> {
    "Access-Control-Allow-Origin: *\r\nAccess-Control-Allow-Methods: GET, POST, OPTIONS\r\nAccess-Control-Allow-Headers: Content-Type, Authorization\r\n"@
}

/// The head of a helper response; `cache` is the `Cache-Control` value, if
/// any, and `length` the body's length, if announced.
pub open spec fn helper_head(
    status: Seq<char>,
    content_type: Seq<char>,
    cache: Option<Seq<char>>,
    length: Option<nat>,
) -> Seq<char> {
    "HTTP/1.1 "@ + status + "\r\nContent-Type: "@ + content_type + "\r\n"@ + match cache {
        Some(c) => "Cache-Control: "@ + c + "\r\n"@,
        None => Seq::empty(),
    } + cors_headers() + match length {
        Some(n) => "Content-Length: "@ + decimal(n) + "\r\n"@,
        None => Seq::empty(),
    } + "Connection: close\r\n\r\n"@
}

fn push_cors(out: &mut Vec<char>)
    ensures
        final(out)@ == old(out)@ + cors_headers(),
{
    push_str(out, "Access-Control-Allow-Origin: *\r\nAccess-Control-Allow-Methods: GET, POST, OPTIONS\r\nAccess-Control-Allow-Headers: Content-Type, Authorization\r\n");
}

fn head_chars(status: &str, content_type: &str, cache: Option<&str>, length: Option<u64>) -> (r: Vec<
    char,
>)
    ensures
        r@ == helper_head(
            status@,
            content_type@,
            match cache {
                Some(c) => Some(c@),
                None => None,
            },
            match length {
                Some(n) => Some(n as nat),
                None => None,
            },
        ),
{
    let mut out: Vec<char> = Vec::new();
    push_str(&mut out, "HTTP/1.1 ");
    push_str(&mut out, status);
    push_str(&mut out, "\r\nContent-Type: ");
    push_str(&mut out, content_type);
    push_str(&mut out, "\r\n");
    let ghost a = out@;
    match cache {
        Some(c) => {
            push_str(&mut out, "Cache-Control: ");
            push_str(&mut out, c);
            push_str(&mut out, "\r\n");
        },
        None => {},
    }
    let ghost b = out@;
    push_cors(&mut out);
    let ghost c2 = out@;
    match length {
        Some(n) => {
            push_str(&mut out, "Content-Length: ");
            push_decimal(&mut out, n);
            push_str(&mut out, "\r\n");
        },
        None => {},
    }
    push_str(&mut out, "Connection: close\r\n\r\n");
    proof {
        let cache_part: Seq<char> = match cache {
            Some(c) => "Cache-Control: "@ + c@ + "\r\n"@,
            None => Seq::empty(),
        };
        let len_part: Seq<char> = match length {
            Some(n) => "Content-Length: "@ + decimal(n as nat) + "\r\n"@,
            None => Seq::empty(),
        };
        assert(b =~= a + cache_part);
        assert(c2 =~= a + cache_part + cors_headers());
        assert(out@ =~= a + cache_part + cors_headers() + len_part + "Connection: close\r\n\r\n"@);
    }
    out
}

/// The head of a response with a body of `length` bytes.
pub fn http_response_head(status: &str, content_type: &str, length: u64) -> (r: String)
    ensures
        r@ == helper_head(status@, content_type@, None, Some(length as nat)),
{
    string_from_chars(&head_chars(status, content_type, None, Some(length)))
}

/// The same head, for a response not to be cached.
pub fn http_no_store_response_head(status: &str, content_type: &str, length: u64) -> (r: String)
    ensures
        r@ == helper_head(status@, content_type@, Some("no-store"@), Some(length as nat)),
{
    string_from_chars(&head_chars(status, content_type, Some("no-store"), Some(length)))
}

/// The head of a streamed response, which announces no length.
pub fn http_stream_head(status: &str, content_type: &str) -> (r: String)
    ensures
        r@ == helper_head(status@, content_type@, Some("no-cache"@), None),
{
    string_from_chars(&head_chars(status, content_type, Some("no-cache"), None))
}

/// The answer to a preflight (`OPTIONS`) request.
pub open spec fn options_response() -> Seq<char> {
    "HTTP/1.1 204 No Content\r\n"@ + cors_headers() + "Content-Length: 0\r\nConnection: close\r\n\r\n"@
}

pub fn options_response_text() -> (r: String)
    ensures
        r@ == options_response(),
{
    let mut out: Vec<char> = Vec::new();
    push_str(&mut out, "HTTP/1.1 204 No Content\r\n");
    push_cors(&mut out);
    push_str(&mut out, "Content-Length: 0\r\nConnection: close\r\n\r\n");
    string_from_chars(&out)
}

/// The image types the overlay serves, by the file's extension.
pub open spec fn overlay_type(path: Seq<char>) -> Option<Seq<char>> {
    match extension(path) {
        Some(e) => {
            let l = lower_seq(e);
            if l == "png"@ {
                Some("image/png"@)
            } else if l == "jpg"@ || l == "jpeg"@ {
                Some("image/jpeg"@)
            } else if l == "webp"@ {
                Some("image/webp"@)
            } else if l == "gif"@ {
                Some("image/gif"@)
            } else if l == "bmp"@ {
                Some("image/bmp"@)
            } else {
                None
            }
        },
        None => None,
    }
}

/// `overlay_image_content_type`.
pub fn overlay_image_content_type(path: &str) -> (r: Option<&'static str>)
    ensures
        match overlay_type(path@) {
            Some(t) => r matches Some(s) && s@ == t,
            None => r is None,
        },
{
    let e = match path_extension(path) {
        Some(e) => e,
        None => return None,
    };
    let l = lower_vec(&e);
    if vec_eq_str(&l, "png") {
        Some("image/png")
    } else if vec_eq_str(&l, "jpg") || vec_eq_str(&l, "jpeg") {
        Some("image/jpeg")
    } else if vec_eq_str(&l, "webp") {
        Some("image/webp")
    } else if vec_eq_str(&l, "gif") {
        Some("image/gif")
    } else if vec_eq_str(&l, "bmp") {
        Some("image/bmp")
    } else {
        None
    }
}

/// The image the overlay would serve: enabled, a path that is not blank
/// once trimmed, and a known image type. Whether the file exists is the
/// caller's to check.
pub fn overlay_image_candidate(enabled: bool, configured_path: &str) -> (r: Option<(String, &'static str)>)
    ensures
        match r {
            Some((p, t)) => enabled && trim(configured_path@).len() > 0 && p@ == trim(
                configured_path@,
            ) && overlay_type(p@) == Some(t@),
            None => !enabled || trim(configured_path@).len() == 0 || overlay_type(
                trim(configured_path@),
            ) is None,
        },
{
    if !enabled {
        return None;
    }
    let t = trim_vec(&chars_of(configured_path));
    if t.len() == 0 {
        return None;
    }
    let p = string_from_chars(&t);
    match overlay_image_content_type(p.as_str()) {
        Some(kind) => Some((p, kind)),
        None => None,
    }
}

/// What the protocol proxy sends back, once the upstream request was tried.
#[derive(Debug, Clone, Copy, PartialEq, Eq)]
pub enum ProxyReply {
    /// The upstream request could not be made: 502.
    BadGateway,
    /// The upstream answered with an error, which is relayed in the proxy's error shape.
    UpstreamError,
    /// A Responses stream, passed through.
    StreamPassthrough,
    /// A Chat Completions stream, converted to Responses events.
    StreamConverted,
    /// A Responses body, passed through.
    BodyPassthrough,
    /// A Chat Completions body, converted to a Responses body.
    BodyConverted,
}

pub open spec fn proxy_reply(opened: bool, success: bool, is_stream: bool, responses_wire: bool) -> ProxyReply {
    if !opened {
        ProxyReply::BadGateway
    } else if !success {
        ProxyReply::UpstreamError
    } else if is_stream {
        if responses_wire {
            ProxyReply::StreamPassthrough
        } else {
            ProxyReply::StreamConverted
        }
    } else if responses_wire {
        ProxyReply::BodyPassthrough
    } else {
        ProxyReply::BodyConverted
    }
}

/// The reply the protocol proxy makes for the upstream's outcome.
pub fn protocol_proxy_reply(opened: bool, success: bool, is_stream: bool, responses_wire: bool) -> (r:
    ProxyReply)
    ensures
        r == proxy_reply(opened, success, is_stream, responses_wire),
{
    if !opened {
        ProxyReply::BadGateway
    } else if !success {
        ProxyReply::UpstreamError
    } else if is_stream {
        if responses_wire {
            ProxyReply::StreamPassthrough
        } else {
            ProxyReply::StreamConverted
        }
    } else if responses_wire {
        ProxyReply::BodyPassthrough
    } else {
        ProxyReply::BodyConverted
    }
}

impl ProxyReply {
    /// The diagnostic event the reply is logged under.
    pub fn log_event(self) -> (r: &'static str)
        ensures
            r@ == match self {
                ProxyReply::BadGateway => "helper.protocol_proxy_failed"@,
                ProxyReply::UpstreamError => "helper.protocol_proxy_upstream_error"@,
                ProxyReply::StreamPassthrough | ProxyReply::StreamConverted => "helper.protocol_proxy_stream_ok"@,
                ProxyReply::BodyPassthrough | ProxyReply::BodyConverted => "helper.protocol_proxy_ok"@,
            },
    {
        match self {
            ProxyReply::BadGateway => "helper.protocol_proxy_failed",
            ProxyReply::UpstreamError => "helper.protocol_proxy_upstream_error",
            ProxyReply::StreamPassthrough | ProxyReply::StreamConverted => "helper.protocol_proxy_stream_ok",
            ProxyReply::BodyPassthrough | ProxyReply::BodyConverted => "helper.protocol_proxy_ok",
        }
    }
}

/// The content type of a passed-through body: the upstream's, or JSON when
/// it gave none.
pub fn passthrough_content_type(upstream: &str) -> (r: String)
    ensures
        r@ == if upstream@.len() == 0 {
            "application/json; charset=utf-8"@
        } else {
            upstream@
        },
{
    let v = chars_of(upstream);
    if v.len() == 0 {
        crate::text::owned("application/json; charset=utf-8")
    } else {
        string_from_chars(&v)
    }
}


/// The content type of the helper's JSON answers.
pub open spec fn json_content_type() -> Seq<char> {
    "application/json; charset=utf-8"@
}

/// The body of a helper answer: nothing, or a JSON object whose members are
/// the given strings, in the order given.
#[derive(Debug)]
pub enum HelperBody {
    Empty,
    JsonObject(Vec<(String, String)>),
}

/// An answer the helper makes itself: status line, content type, body, the
/// diagnostic event it is logged under, and whether the request's own body
/// is logged first as a `renderer.*` event.
#[derive(Debug)]
pub struct HelperAnswer {
    pub status: String,
    pub content_type: String,
    pub body: HelperBody,
    pub log_event: String,
    pub logs_renderer_event: bool,
}

pub open spec fn member_views(v: Seq<(String, String)>) -> Seq<(Seq<char>, Seq<char>)> {
    v.map_values(|m: (String, String)| (m.0@, m.1@))
}

/// The routes the helper answers itself (the overlay image only to a
/// preflight request; its image is read from disk).
pub open spec fn answers_itself(route: HelperRoute, method: Seq<char>) -> bool {
    match route {
        HelperRoute::BackendStatus | HelperRoute::BackendRepair | HelperRoute::DiagnosticsLog
        | HelperRoute::NotFound => true,
        HelperRoute::OverlayImage => method == "OPTIONS"@,
        _ => false,
    }
}

pub open spec fn answer_status(route: HelperRoute) -> Seq<char> {
    if route == HelperRoute::NotFound {
        "404 Not Found"@
    } else {
        "200 OK"@
    }
}

pub open spec fn answer_content_type(route: HelperRoute) -> Seq<char> {
    if route == HelperRoute::OverlayImage {
        "application/octet-stream"@
    } else {
        json_content_type()
    }
}

/// The JSON members of an answer, none for an empty body. `version` is the
/// helper's version.
pub open spec fn answer_members(route: HelperRoute, version: Seq<char>) -> Option<
    Seq<(Seq<char>, Seq<char>)>,
> {
    match route {
        HelperRoute::BackendStatus | HelperRoute::BackendRepair => Some(
            seq![
                ("status"@, "ok"@),
                ("message"@, "后端已连接"@),
                ("version"@, version),
                ("transport"@, "http-helper"@),
            ],
        ),
        HelperRoute::DiagnosticsLog => Some(seq![("status"@, "ok"@), ("message"@, "日志已记录"@)]),
        HelperRoute::NotFound => Some(seq![("status"@, "failed"@), ("message"@, "未知后端路径"@)]),
        _ => None,
    }
}

pub open spec fn answer_event(route: HelperRoute) -> Seq<char> {
    match route {
        HelperRoute::BackendStatus => "helper.backend_status_ok"@,
        HelperRoute::BackendRepair => "helper.backend_repair_ok"@,
        HelperRoute::DiagnosticsLog => "helper.diagnostics_log_ok"@,
        HelperRoute::OverlayImage => "helper.overlay_image_options"@,
        _ => "helper.unknown_path"@,
    }
}

pub open spec fn body_members(b: HelperBody) -> Option<Seq<(Seq<char>, Seq<char>)>> {
    match b {
        HelperBody::Empty => None,
        HelperBody::JsonObject(m) => Some(member_views(m@)),
    }
}

fn member(k: &str, v: &str) -> (r: (String, String))
    ensures
        r.0@ == k@ && r.1@ == v@,
{
    (crate::text::owned(k), crate::text::owned(v))
}

/// The answer the helper makes itself on `route`, or none where another
/// handler answers: the backend status and repair routes report the
/// connection and `version`, the diagnostics log acknowledges (logging the
/// request body as a renderer event on `POST` only), a preflight on the
/// overlay image gets an empty body, and any other path is unknown (404).
pub fn helper_answer(route: HelperRoute, method: &str, version: &str) -> (r: Option<HelperAnswer>)
    ensures
        !answers_itself(route, method@) ==> r is None,
        answers_itself(route, method@) ==> (r matches Some(a) && a.status@ == answer_status(route)
            && a.content_type@ == answer_content_type(route) && body_members(a.body)
            == answer_members(route, version@) && a.log_event@ == answer_event(route)
            && a.logs_renderer_event == (route == HelperRoute::DiagnosticsLog && method@
            == "POST"@)),
{
    let m = chars_of(method);
    let options = vec_eq_str(&m, "OPTIONS");
    let post = vec_eq_str(&m, "POST");
    let json = "application/json; charset=utf-8";
    match route {
        HelperRoute::BackendStatus | HelperRoute::BackendRepair => {
            let mut members: Vec<(String, String)> = Vec::new();
            members.push(member("status", "ok"));
            members.push(member("message", "后端已连接"));
            members.push(member("version", version));
            members.push(member("transport", "http-helper"));
            let event = match route {
                HelperRoute::BackendStatus => "helper.backend_status_ok",
                _ => "helper.backend_repair_ok",
            };
            proof {
                assert(member_views(members@) =~= answer_members(route, version@)->0);
            }
            Some(
                HelperAnswer {
                    status: crate::text::owned("200 OK"),
                    content_type: crate::text::owned(json),
                    body: HelperBody::JsonObject(members),
                    log_event: crate::text::owned(event),
                    logs_renderer_event: false,
                },
            )
        },
        HelperRoute::DiagnosticsLog => {
            let mut members: Vec<(String, String)> = Vec::new();
            members.push(member("status", "ok"));
            members.push(member("message", "日志已记录"));
            proof {
                assert(member_views(members@) =~= answer_members(route, version@)->0);
            }
            Some(
                HelperAnswer {
                    status: crate::text::owned("200 OK"),
                    content_type: crate::text::owned(json),
                    body: HelperBody::JsonObject(members),
                    log_event: crate::text::owned("helper.diagnostics_log_ok"),
                    logs_renderer_event: post,
                },
            )
        },
        HelperRoute::OverlayImage => {
            if options {
                Some(
                    HelperAnswer {
                        status: crate::text::owned("200 OK"),
                        content_type: crate::text::owned("application/octet-stream"),
                        body: HelperBody::Empty,
                        log_event: crate::text::owned("helper.overlay_image_options"),
                        logs_renderer_event: false,
                    },
                )
            } else {
                None
            }
        },
        HelperRoute::NotFound => {
            let mut members: Vec<(String, String)> = Vec::new();
            members.push(member("status", "failed"));
            members.push(member("message", "未知后端路径"));
            proof {
                assert(member_views(members@) =~= answer_members(route, version@)->0);
            }
            Some(
                HelperAnswer {
                    status: crate::text::owned("404 Not Found"),
                    content_type: crate::text::owned(json),
                    body: HelperBody::JsonObject(members),
                    log_event: crate::text::owned("helper.unknown_path"),
                    logs_renderer_event: false,
                },
            )
        },
        _ => None,
    }
}

/// The head the helper writes for its own answer, and whether the body
/// follows it: a preflight (`OPTIONS`) request gets the 204 answer and no
/// body, whatever the route; any other request gets `status`, the content
/// type and the length of the `body_len`-byte body.
pub fn helper_reply_head(method: &str, status: &str, content_type: &str, body_len: u64) -> (r: (
    String,
    bool,
))
    ensures
        method@ == "OPTIONS"@ ==> r.0@ == options_response() && !r.1,
        method@ != "OPTIONS"@ ==> r.0@ == helper_head(
            status@,
            content_type@,
            None,
            Some(body_len as nat),
        ) && r.1,
{
    if vec_eq_str(&chars_of(method), "OPTIONS") {
        (options_response_text(), false)
    } else {
        (http_response_head(status, content_type, body_len), true)
    }
}

/// What a proxy route answers when the upstream request could not be made:
/// `502 Bad Gateway`, a JSON body `{status: "failed", message}` carrying the
/// error's text, logged under `event` (the proxy's failure event).
pub fn proxy_failure_answer(error_text: &str, event: &str) -> (r: HelperAnswer)
    ensures
        r.status@ == "502 Bad Gateway"@,
        r.content_type@ == json_content_type(),
        body_members(r.body) == Some(seq![("status"@, "failed"@), ("message"@, error_text@)]),
        r.log_event@ == event@,
        !r.logs_renderer_event,
{
    let mut members: Vec<(String, String)> = Vec::new();
    members.push(member("status", "failed"));
    members.push(member("message", error_text));
    proof {
        assert(member_views(members@) =~= seq![("status"@, "failed"@), ("message"@, error_text@)]);
    }
    HelperAnswer {
        status: crate::text::owned("502 Bad Gateway"),
        content_type: crate::text::owned("application/json; charset=utf-8"),
        body: HelperBody::JsonObject(members),
        log_event: crate::text::owned(event),
        logs_renderer_event: false,
    }
}

} // verus!
