//! Reading and rewriting the HTTP messages that the helper and the mobile
//! relay exchange.
use vstd::prelude::*;
use crate::text::{
    chars_of, contains, eq_ignore_case, eq_ignore_case_vec, find_char, find_vec, is_ws, is_ws_char,
    lemma_find_char, lines, lines_vec, lower_seq, lower_vec, occurs_at, owned, parse_u16,
    parse_u16_vec, parse_usize, parse_usize_vec, push_all, push_range, push_str, split_once,
    split_once_index, starts_with, starts_with_vec, string_from_chars, string_from_range, trim,
    trim_start, trim_vec, vec_eq_str,
};

verus! {

/// What `String::from_utf8_lossy` makes of bytes that are not valid UTF-8.
pub uninterp spec fn lossy_of_invalid(bytes: Seq<u8>) -> Seq<char>;

/// What `String::from_utf8_lossy` makes of `bytes`: valid UTF-8 is decoded
/// as it is; other bytes get invalid sequences replaced by U+FFFD.
pub open spec fn utf8_lossy(bytes: Seq<u8>) -> Seq<char> {
    if vstd::utf8::valid_utf8(bytes) {
        vstd::utf8::decode_utf8(bytes)
    } else {
        lossy_of_invalid(bytes)
    }
}

/// `String::from_utf8_lossy`: the text of `bytes`. Valid UTF-8 is decoded as
/// it is; for other bytes, which sequences are replaced by U+FFFD is left to
/// the name `lossy_of_invalid`.
#[verifier::external_body]
pub(crate) fn lossy_text(bytes: &[u8]) -> (r: String)
    ensures
        vstd::utf8::valid_utf8(bytes@) ==> r@ == vstd::utf8::decode_utf8(bytes@),
        !vstd::utf8::valid_utf8(bytes@) ==> r@ == lossy_of_invalid(bytes@),
{
    String::from_utf8_lossy(bytes).into_owned()
}

/// `b"\r\n\r\n"` occurs in `bytes` at `i`.
pub open spec fn crlf2_at(bytes: Seq<u8>, i: int) -> bool {
    0 <= i && i + 4 <= bytes.len() && bytes[i] == 13 && bytes[i + 1] == 10 && bytes[i + 2] == 13
        && bytes[i + 3] == 10
}

/// The position of the first blank line (`\r\n\r\n`) in a request buffer.
pub fn find_header_end(buffer: &[u8]) -> (r: Option<usize>)
    ensures
        match r {
            Some(i) => crlf2_at(buffer@, i as int) && forall|j: int| 0 <= j < i ==> !crlf2_at(buffer@, j),
            None => forall|j: int| !crlf2_at(buffer@, j),
        },
{
    if buffer.len() < 4 {
        return None;
    }
    let mut i: usize = 0;
    while i <= buffer.len() - 4
        invariant
            buffer@.len() >= 4,
            i <= buffer@.len() - 3,
            forall|j: int| 0 <= j < i ==> !crlf2_at(buffer@, j),
        decreases buffer.len() - i,
    {
        if buffer[i] == 13 && buffer[i + 1] == 10 && buffer[i + 2] == 13 && buffer[i + 3] == 10 {
            return Some(i);
        }
        i = i + 1;
    }
    None
}

/// The value that a header line gives for `name`: the trimmed value of the
/// first line whose trimmed name equals `name` ignoring ASCII case and whose
/// value is a number; `None` when there is none.
pub open spec fn header_number(ls: Seq<Seq<char>>, name: Seq<char>) -> Option<usize>
    decreases ls.len(),
{
    if ls.len() == 0 {
        None
    } else {
        let here = match split_once(ls[0], ':') {
            Some((n, v)) => if eq_ignore_case(trim(n), name) {
                parse_usize(trim(v))
            } else {
                None
            },
            None => None,
        };
        match here {
            Some(x) => Some(x),
            None => header_number(ls.drop_first(), name),
        }
    }
}

/// The `Content-Length` that header text declares.
pub fn content_length_from_header_text(text: &str) -> (r: Option<usize>)
    ensures
        r == header_number(lines(text@), "content-length"@),
{
    let v = chars_of(text);
    let ls = lines_vec(&v);
    let name = chars_of("content-length");
    let ghost all = lines(v@);
    let mut i: usize = 0;
    proof {
        assert(ls@.len() == all.len());
        assert(all.skip(0) == all);
    }
    while i < ls.len()
        invariant
            i <= ls.len(),
            ls@.len() == all.len(),
            forall|k: int| 0 <= k < ls@.len() ==> #[trigger] ls@[k]@ == all[k],
            all == lines(text@),
            name@ == "content-length"@,
            header_number(all, name@) == header_number(all.skip(i as int), name@),
        decreases ls.len() - i,
    {
        let line = &ls[i];
        proof {
            assert(all.skip(i as int)[0] == line@);
            assert(all.skip(i as int).drop_first() == all.skip(i + 1));
        }
        match split_once_index(line, ':') {
            Some(k) => {
                let mut n = Vec::new();
                push_range(&mut n, line, 0, k);
                let mut val = Vec::new();
                push_range(&mut val, line, k + 1, line.len());
                proof {
                    assert(n@ == line@.take(k as int));
                    assert(val@ == line@.skip(k + 1));
                }
                let tn = trim_vec(&n);
                if eq_ignore_case_vec(&tn, &name) {
                    let tv = trim_vec(&val);
                    match parse_usize_vec(&tv) {
                        Some(x) => return Some(x),
                        None => {},
                    }
                }
            },
            None => {},
        }
        i = i + 1;
    }
    None
}

/// The `Content-Length` of raw header bytes, read as lossy UTF-8.
pub fn content_length_from_headers(headers: &[u8]) -> (r: Option<usize>)
    ensures
        r == header_number(lines(utf8_lossy(headers@)), "content-length"@),
{
    let text = lossy_text(headers);
    content_length_from_header_text(text.as_str())
}

/// The text after the first blank line (`\r\n\r\n`), or nothing.
pub open spec fn body_of(request: Seq<char>) -> Seq<char> {
    if contains(request, "\r\n\r\n"@) {
        let i = choose|i: int| occurs_at(request, "\r\n\r\n"@, i) && forall|j: int|
            0 <= j < i ==> !occurs_at(request, "\r\n\r\n"@, j);
        request.skip(i + 4)
    } else {
        Seq::empty()
    }
}

/// The head of a request: the text before the first blank line, or all of it.
pub open spec fn head_of(request: Seq<char>) -> Seq<char> {
    if contains(request, "\r\n\r\n"@) {
        let i = choose|i: int| occurs_at(request, "\r\n\r\n"@, i) && forall|j: int|
            0 <= j < i ==> !occurs_at(request, "\r\n\r\n"@, j);
        request.take(i)
    } else {
        request
    }
}

proof fn lemma_first_occurrence_unique(s: Seq<char>, p: Seq<char>, i: int)
    requires
        occurs_at(s, p, i),
        forall|j: int| 0 <= j < i ==> !occurs_at(s, p, j),
    ensures
        (choose|k: int| occurs_at(s, p, k) && forall|j: int| 0 <= j < k ==> !occurs_at(s, p, j))
            == i,
{
    let k = choose|k: int| occurs_at(s, p, k) && forall|j: int| 0 <= j < k ==> !occurs_at(s, p, j);
    assert(occurs_at(s, p, k) && forall|j: int| 0 <= j < k ==> !occurs_at(s, p, j));
    if k < i {
        assert(!occurs_at(s, p, k));
    }
    if i < k {
        assert(!occurs_at(s, p, i));
    }
}

/// Splits a request into head and body at the first blank line.
fn split_head(v: &Vec<char>) -> (r: (usize, Option<usize>))
    ensures
        r.0 <= v.len(),
        v@.take(r.0 as int) == head_of(v@),
        match r.1 {
            Some(b) => b <= v.len() && v@.skip(b as int) == body_of(v@),
            None => body_of(v@) == Seq::<char>::empty(),
        },
{
    let pat = chars_of("\r\n\r\n");
    proof {
        reveal_strlit("\r\n\r\n");
    }
    let n = v.len();
    match find_vec(v, &pat) {
        Some(i) => {
            proof {
                lemma_first_occurrence_unique(v@, pat@, i as int);
                assert(contains(v@, "\r\n\r\n"@));
                assert(pat@.len() == 4);
                assert(i + 4 <= n);
            }
            (i, Some(i + 4))
        },
        None => {
            proof {
                assert(v@.take(v@.len() as int) == v@);
            }
            (v.len(), None)
        },
    }
}

/// The body of an HTTP request: everything after the first blank line.
pub fn http_request_body(request: &str) -> (r: String)
    ensures
        r@ == body_of(request@),
{
    let v = chars_of(request);
    let (_, b) = split_head(&v);
    match b {
        Some(b) => string_from_range(&v, b, v.len()),
        None => String::new(),
    }
}

/// The header line value for `name` among `ls` (the lines after the request
/// line): the trimmed value of the first line whose trimmed name matches.
pub open spec fn header_in(ls: Seq<Seq<char>>, name: Seq<char>) -> Option<Seq<char>>
    decreases ls.len(),
{
    if ls.len() == 0 {
        None
    } else {
        match split_once(ls[0], ':') {
            Some((n, v)) => if eq_ignore_case(trim(n), name) {
                Some(trim(v))
            } else {
                header_in(ls.drop_first(), name)
            },
            None => header_in(ls.drop_first(), name),
        }
    }
}

/// The non-empty value of header `name` in the head of `request`.
pub open spec fn request_header(request: Seq<char>, name: Seq<char>) -> Option<Seq<char>> {
    let ls = lines(head_of(request));
    if ls.len() == 0 {
        None
    } else {
        match header_in(ls.drop_first(), name) {
            Some(v) => if v.len() > 0 {
                Some(v)
            } else {
                None
            },
            None => None,
        }
    }
}

/// The value of header `header_name` (matched ignoring ASCII case) in the head
/// of `request`; `None` when it is missing or empty.
pub fn header_value_from_request(request: &str, header_name: &str) -> (r: Option<String>)
    ensures
        match r {
            Some(v) => request_header(request@, header_name@) == Some(v@),
            None => request_header(request@, header_name@) is None,
        },
{
    let v = chars_of(request);
    let (h, _) = split_head(&v);
    let mut head = Vec::new();
    push_range(&mut head, &v, 0, h);
    proof {
        assert(head@ == v@.take(h as int));
    }
    let ls = lines_vec(&head);
    if ls.len() == 0 {
        return None;
    }
    let name = chars_of(header_name);
    let ghost all = lines(head@).drop_first();
    let mut i: usize = 1;
    proof {
        assert(all.skip(0) == all);
    }
    while i < ls.len()
        invariant
            1 <= i <= ls.len(),
            all.len() + 1 == ls@.len(),
            lines(head@).len() == ls@.len(),
            forall|k: int| 0 <= k < ls@.len() ==> #[trigger] ls@[k]@ == lines(head@)[k],
            all == lines(head@).drop_first(),
            head@ == head_of(request@),
            name@ == header_name@,
            header_in(all, name@) == header_in(all.skip(i - 1), name@),
        decreases ls.len() - i,
    {
        let line = &ls[i];
        proof {
            assert(all.skip(i - 1)[0] == all[i - 1]);
            assert(all[i - 1] == lines(head@)[i as int]);
            assert(ls@[i as int]@ == lines(head@)[i as int]);
            assert(all.skip(i - 1)[0] == line@);
            assert(all.skip(i - 1).drop_first() == all.skip(i as int));
        }
        match split_once_index(line, ':') {
            Some(k) => {
                let mut n = Vec::new();
                push_range(&mut n, line, 0, k);
                proof {
                    assert(n@ == line@.take(k as int));
                }
                let tn = trim_vec(&n);
                if eq_ignore_case_vec(&tn, &name) {
                    let mut val = Vec::new();
                    push_range(&mut val, line, k + 1, line.len());
                    proof {
                        assert(val@ == line@.skip(k + 1));
                    }
                    let tv = trim_vec(&val);
                    if tv.len() > 0 {
                        return Some(string_from_chars(&tv));
                    } else {
                        return None;
                    }
                }
            },
            None => {},
        }
        i = i + 1;
    }
    None
}

/// The event name kept for a renderer diagnostic: every character that is not
/// an ASCII letter, digit, `_`, `-` or `.` becomes `_`; `event` when empty.
pub open spec fn sanitized_event(e: Seq<char>) -> Seq<char> {
    if e.len() == 0 {
        "event"@
    } else {
        e.map_values(|c: char| safe_event_char(c))
    }
}

pub open spec fn safe_event_char(c: char) -> char {
    if crate::text::is_ascii_alnum(c) || c == '_' || c == '-' || c == '.' {
        c
    } else {
        '_'
    }
}

/// Maps every character of `v` through [`safe_event_char`].
pub fn map_event_chars(v: &Vec<char>) -> (r: Vec<char>)
    ensures
        r@ == v@.map_values(|c: char| safe_event_char(c)),
{
    let mut r: Vec<char> = Vec::new();
    let mut i: usize = 0;
    while i < v.len()
        invariant
            i <= v.len(),
            r@ == v@.take(i as int).map_values(|c: char| safe_event_char(c)),
        decreases v.len() - i,
    {
        let c = v[i];
        let d = if crate::text::is_ascii_alnum_char(c) || c == '_' || c == '-' || c == '.' {
            c
        } else {
            '_'
        };
        r.push(d);
        proof {
            assert(v@.take(i + 1) == v@.take(i as int).push(c));
        }
        i = i + 1;
    }
    proof {
        assert(v@.take(v@.len() as int) == v@);
    }
    r
}

/// A renderer diagnostic event name that is safe to log.
pub fn sanitize_diagnostic_event(event: &str) -> (r: String)
    ensures
        r@ == sanitized_event(event@),
{
    let v = chars_of(event);
    if v.len() == 0 {
        return owned("event");
    }
    let r = map_event_chars(&v);
    string_from_chars(&r)
}

/// A header line is forwarded to the app-server unless it names `Host`,
/// `Origin` or `Sec-WebSocket-Protocol`.
pub open spec fn forwarded_header(line: Seq<char>) -> bool {
    match split_once(line, ':') {
        Some((n, _)) => !(eq_ignore_case(trim(n), "host"@) || eq_ignore_case(trim(n), "origin"@)
            || eq_ignore_case(trim(n), "sec-websocket-protocol"@)),
        None => false,
    }
}

/// The forwarded header lines among `ls`, up to the first empty line, each
/// followed by CRLF.
pub open spec fn forwarded_headers(ls: Seq<Seq<char>>) -> Seq<char>
    decreases ls.len(),
{
    if ls.len() == 0 || ls[0].len() == 0 {
        Seq::empty()
    } else if forwarded_header(ls[0]) {
        ls[0] + "\r\n"@ + forwarded_headers(ls.drop_first())
    } else {
        forwarded_headers(ls.drop_first())
    }
}

/// The app-server handshake request for a client's websocket request.
pub open spec fn rewritten_ws_request(request: Seq<char>, port: u16) -> Seq<char> {
    let ls = lines(request);
    "GET /rpc HTTP/1.1\r\nHost: 127.0.0.1:"@ + crate::text::decimal(port as nat) + "\r\n"@
        + forwarded_headers(if ls.len() > 0 {
        ls.drop_first()
    } else {
        ls
    }) + "\r\n"@
}

/// Rewrites a client's websocket handshake for the local app-server: the
/// request line and `Host` are replaced; `Origin` and the subprotocol header
/// are dropped.
pub fn rewrite_app_server_ws_request(request: &str, app_server_port: u16) -> (r: String)
    ensures
        r@ == rewritten_ws_request(request@, app_server_port),
{
    let mut out = chars_of("GET /rpc HTTP/1.1\r\nHost: 127.0.0.1:");
    crate::text::push_decimal(&mut out, app_server_port as u64);
    push_str(&mut out, "\r\n");
    let ghost prefix = out@;
    let v = chars_of(request);
    let ls = lines_vec(&v);
    let ghost all = lines(v@);
    let ghost tail = if all.len() > 0 {
        all.drop_first()
    } else {
        all
    };
    let host = chars_of("host");
    let origin = chars_of("origin");
    let proto = chars_of("sec-websocket-protocol");
    let mut i: usize = 1;
    if ls.len() == 0 {
        i = 0;
    }
    proof {
        if all.len() > 0 {
            assert(tail == all.skip(1));
        } else {
            assert(tail == all.skip(0));
        }
    }
    while i < ls.len()
        invariant
            i <= ls.len(),
            ls@.len() == all.len(),
            ls@.len() > 0 ==> i >= 1,
            forall|k: int| 0 <= k < ls@.len() ==> #[trigger] ls@[k]@ == all[k],
            tail == (if all.len() > 0 {
                all.drop_first()
            } else {
                all
            }),
            all == lines(request@),
            host@ == "host"@,
            origin@ == "origin"@,
            proto@ == "sec-websocket-protocol"@,
            out@ + forwarded_headers(all.skip(i as int)) == prefix + forwarded_headers(tail),
        decreases ls.len() - i,
    {
        let line = &ls[i];
        let ghost rest = all.skip(i as int);
        proof {
            assert(rest[0] == line@);
            assert(rest.drop_first() == all.skip(i + 1));
        }
        if line.len() == 0 {
            proof {
                assert(forwarded_headers(rest) == Seq::<char>::empty());
                assert(all.skip(ls@.len() as int).len() == 0);
            }
            i = ls.len();
            continue;
        }
        match split_once_index(line, ':') {
            Some(k) => {
                let mut n = Vec::new();
                push_range(&mut n, line, 0, k);
                proof {
                    assert(n@ == line@.take(k as int));
                }
                let tn = trim_vec(&n);
                if !(eq_ignore_case_vec(&tn, &host) || eq_ignore_case_vec(&tn, &origin)
                    || eq_ignore_case_vec(&tn, &proto)) {
                    let ghost before = out@;
                    push_all(&mut out, line);
                    push_str(&mut out, "\r\n");
                    proof {
                        assert(out@ + forwarded_headers(all.skip(i + 1)) == before
                            + forwarded_headers(rest));
                    }
                }
            },
            None => {},
        }
        i = i + 1;
    }
    proof {
        assert(all.skip(i as int).len() == 0);
    }
    push_str(&mut out, "\r\n");
    string_from_chars(&out)
}

/// The part of `s` before the first `c` (or all of `s`): `str::split(c).next()`.
pub open spec fn before_char(s: Seq<char>, c: char) -> Seq<char> {
    match find_char(s, c) {
        Some(i) => s.take(i),
        None => s,
    }
}

/// The local port named by an app-server URL (`ws://` or `http://` on
/// `127.0.0.1` or `localhost`).
pub open spec fn url_local_port(value: Seq<char>) -> Option<u16> {
    let t = trim(value);
    let rest = if starts_with(t, "ws://"@) {
        Some(t.skip(5))
    } else if starts_with(t, "http://"@) {
        Some(t.skip(7))
    } else {
        None
    };
    match rest {
        Some(r) => {
            let authority = before_char(r, '/');
            match crate::text::rfind_char(authority, ':') {
                Some(i) => {
                    let host = authority.take(i);
                    if host == "127.0.0.1"@ || host == "localhost"@ {
                        parse_u16(authority.skip(i + 1))
                    } else {
                        None
                    }
                },
                None => None,
            }
        },
        None => None,
    }
}

/// The port of a local app-server URL such as `ws://127.0.0.1:4500/rpc`.
pub fn app_server_port_from_url(value: &str) -> (r: Option<u16>)
    ensures
        r == url_local_port(value@),
{
    let t = trim_vec(&chars_of(value));
    let ws = chars_of("ws://");
    let http = chars_of("http://");
    proof {
        reveal_strlit("ws://");
        reveal_strlit("http://");
    }
    let start: usize = if starts_with_vec(&t, &ws) {
        5
    } else if starts_with_vec(&t, &http) {
        7
    } else {
        return None;
    };
    let mut rest = Vec::new();
    push_range(&mut rest, &t, start, t.len());
    proof {
        assert(rest@ == t@.skip(start as int));
    }
    let end = match split_once_index(&rest, '/') {
        Some(k) => k,
        None => rest.len(),
    };
    let mut authority = Vec::new();
    push_range(&mut authority, &rest, 0, end);
    proof {
        assert(authority@ == before_char(rest@, '/')) by {
            assert(rest@.subrange(0, end as int) == rest@.take(end as int));
            if find_char(rest@, '/') is None {
                assert(rest@.take(rest@.len() as int) == rest@);
            }
        }
    }
    let mut j = authority.len();
    let mut colon: Option<usize> = None;
    proof {
        assert(authority@.take(j as int) == authority@);
    }
    while j > 0
        invariant
            j <= authority.len(),
            colon is None ==> crate::text::rfind_char(authority@, ':') == crate::text::rfind_char(
                authority@.take(j as int),
                ':',
            ),
            colon matches Some(c) ==> crate::text::rfind_char(authority@, ':') == Some(c as int)
                && c < authority.len(),
        decreases j,
    {
        if colon.is_none() {
            if authority[j - 1] == ':' {
                colon = Some(j - 1);
                proof {
                    assert(authority@.take(j as int).last() == ':');
                }
            } else {
                proof {
                    assert(authority@.take(j as int).drop_last() == authority@.take(j - 1));
                }
            }
        }
        j = j - 1;
    }
    proof {
        if colon is None {
            assert(authority@.take(0).len() == 0);
        }
    }
    match colon {
        Some(c) => {
            let mut host = Vec::new();
            push_range(&mut host, &authority, 0, c);
            let mut port = Vec::new();
            push_range(&mut port, &authority, c + 1, authority.len());
            proof {
                assert(host@ == authority@.take(c as int));
                assert(port@ == authority@.skip(c + 1));
            }
            if vec_eq_str(&host, "127.0.0.1") || vec_eq_str(&host, "localhost") {
                parse_u16_vec(&port)
            } else {
                None
            }
        },
        None => None,
    }
}

/// What `script_safe_json` writes for one character: `<`, `>`, `&`, U+2028 and
/// U+2029 as `\uXXXX` escapes, anything else as itself.
pub open spec fn script_safe_char(c: char) -> Seq<char> {
    if c == '<' {
        "\\u003c"@
    } else if c == '>' {
        "\\u003e"@
    } else if c == '&' {
        "\\u0026"@
    } else if c == '\u{2028}' {
        "\\u2028"@
    } else if c == '\u{2029}' {
        "\\u2029"@
    } else {
        seq![c]
    }
}

pub open spec fn script_safe(s: Seq<char>) -> Seq<char>
    decreases s.len(),
{
    if s.len() == 0 {
        Seq::empty()
    } else {
        script_safe(s.drop_last()) + script_safe_char(s.last())
    }
}

/// JSON text that can be embedded in an HTML `<script>` element.
pub fn script_safe_json(json: &str) -> (r: String)
    ensures
        r@ == script_safe(json@),
{
    let v = chars_of(json);
    let mut out: Vec<char> = Vec::new();
    let mut i: usize = 0;
    while i < v.len()
        invariant
            i <= v.len(),
            out@ == script_safe(v@.take(i as int)),
        decreases v.len() - i,
    {
        let c = v[i];
        if c == '<' {
            push_str(&mut out, "\\u003c");
        } else if c == '>' {
            push_str(&mut out, "\\u003e");
        } else if c == '&' {
            push_str(&mut out, "\\u0026");
        } else if c == '\u{2028}' {
            push_str(&mut out, "\\u2028");
        } else if c == '\u{2029}' {
            push_str(&mut out, "\\u2029");
        } else {
            out.push(c);
        }
        proof {
            assert(v@.take(i + 1).drop_last() == v@.take(i as int));
            assert(v@.take(i + 1).last() == c);
        }
        i = i + 1;
    }
    proof {
        assert(v@.take(v@.len() as int) == v@);
    }
    string_from_chars(&out)
}

} // verus!
