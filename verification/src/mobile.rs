//! Mobile control: the relay host configuration, its connection URL, the
//! helper's answers to relayed HTTP requests, and the model catalog shown on
//! the phone.
use vstd::prelude::*;
use vstd::string::StringSliceAdditionalSpecFns;
use crate::encoding::{pct_encode, push_pct_encoded};
use crate::http::{lossy_text, utf8_lossy};
use crate::text::{
    chars_of, contains, contains_vec, ends_with, ends_with_vec, find_char, is_ws, lines, lines_vec,
    lower_seq, lower_vec, owned, parse_u16, parse_u16_vec, push_all, push_range, push_str,
    split_once, split_once_index, string_from_chars, string_from_range, trim, trim_end_char,
    trim_end_char_len, trim_start, trim_str, trim_vec, vec_eq,
};

verus! {

/// Percent-encoding of a query value: every byte but the unreserved ones.
pub fn percent_encode_query(value: &str) -> (r: String)
    ensures
        r@ == pct_encode(value.spec_bytes(), false),
{
    let mut out: Vec<char> = Vec::new();
    push_pct_encoded(&mut out, value, false);
    string_from_chars(&out)
}

/// Where and as whom the helper joins the mobile relay.
#[derive(Debug)]
pub struct MobileRelayHostConfig {
    pub relay_url: String,
    pub room: String,
    pub token: String,
    pub encryption_key: String,
}

/// The relay URL with the host role path: kept when it already names `/host`,
/// otherwise `/host` is appended after dropping trailing slashes.
pub open spec fn host_path_url(url: Seq<char>) -> Seq<char> {
    if ends_with(url, "/host"@) || contains(url, "/host?"@) {
        url
    } else {
        trim_end_char(url, '/') + "/host"@
    }
}

/// The query parameters of the host URL: the percent-encoded `room` and
/// `token`.
pub open spec fn host_query(room: Seq<u8>, token: Seq<u8>) -> Seq<char> {
    "room="@ + pct_encode(room, false) + "&token="@ + pct_encode(token, false)
}

/// The full host URL: role path, then `room` and `token` as query parameters.
pub open spec fn host_url_of(url: Seq<char>, room: Seq<u8>, token: Seq<u8>) -> Seq<char> {
    host_path_url(url) + seq![
        if contains(url, seq!['?']) {
            '&'
        } else {
            '?'
        },
    ] + host_query(room, token)
}

impl MobileRelayHostConfig {
    /// The websocket URL through which the helper registers as host.
    pub fn host_url(&self) -> (r: String)
        ensures
            r@ == host_url_of(self.relay_url@, vstd::utf8::encode_utf8(self.room@), vstd::utf8::encode_utf8(self.token@)),
    {
        let url = chars_of(self.relay_url.as_str());
        let q = chars_of("?");
        proof {
            reveal_strlit("?");
            assert(q@ == seq!['?']);
        }
        let separator = if contains_vec(&url, &q) {
            '&'
        } else {
            '?'
        };
        let host = chars_of("/host");
        let hostq = chars_of("/host?");
        let mut out: Vec<char> = Vec::new();
        if ends_with_vec(&url, &host) || contains_vec(&url, &hostq) {
            push_all(&mut out, &url);
        } else {
            let n = trim_end_char_len(&url, '/');
            push_range(&mut out, &url, 0, n);
            push_all(&mut out, &host);
            proof {
                assert(url@.subrange(0, n as int) == url@.take(n as int));
            }
        }
        out.push(separator);
        push_str(&mut out, "room=");
        push_pct_encoded(&mut out, self.room.as_str(), false);
        push_str(&mut out, "&token=");
        push_pct_encoded(&mut out, self.token.as_str(), false);
        string_from_chars(&out)
    }
}

/// An environment value wins when it is non-empty after trimming; otherwise
/// the trimmed setting, when non-empty.
pub open spec fn env_or_setting_value(env: Option<Seq<char>>, setting: Seq<char>) -> Option<
    Seq<char>,
> {
    match env {
        Some(e) if trim(e).len() > 0 => Some(trim(e)),
        _ => if trim(setting).len() > 0 {
            Some(trim(setting))
        } else {
            None
        },
    }
}

/// The value of a setting that an environment variable can override.
pub fn env_or_setting(env_value: Option<&str>, setting: &str) -> (r: Option<String>)
    ensures
        match r {
            Some(v) => env_or_setting_value(
                match env_value {
                    Some(e) => Some(e@),
                    None => None,
                },
                setting@,
            ) == Some(v@),
            None => env_or_setting_value(
                match env_value {
                    Some(e) => Some(e@),
                    None => None,
                },
                setting@,
            ) is None,
        },
{
    match env_value {
        Some(e) => {
            let t = trim_str(e);
            if !t.as_str().is_empty() {
                return Some(t);
            }
        },
        None => {},
    }
    let s = trim_str(setting);
    if s.as_str().is_empty() {
        None
    } else {
        Some(s)
    }
}

/// The mobile control settings that the host configuration reads.
#[derive(Debug)]
pub struct MobileControlSettings {
    pub mobile_control_enabled: bool,
    pub mobile_control_relay_url: String,
    pub mobile_control_room: String,
    pub mobile_control_key: String,
}

/// The environment variables that override mobile control settings.
#[derive(Debug)]
pub struct MobileRelayEnv {
    pub relay_url: Option<String>,
    pub room: Option<String>,
    pub token: Option<String>,
    pub key: Option<String>,
}

pub open spec fn opt_view(o: Option<String>) -> Option<Seq<char>> {
    match o {
        Some(s) => Some(s@),
        None => None,
    }
}

impl MobileRelayHostConfig {
    /// The host configuration, when mobile control is enabled (or the relay
    /// URL variable is set) and URL, room and key are all known. The token
    /// defaults to the room.
    pub fn from_settings_and_env(settings: &MobileControlSettings, env: &MobileRelayEnv) -> (r:
        Option<Self>)
        ensures
            ({
                let url = env_or_setting_value(opt_view(env.relay_url), settings.mobile_control_relay_url@);
                let room = env_or_setting_value(opt_view(env.room), settings.mobile_control_room@);
                let key = env_or_setting_value(opt_view(env.key), settings.mobile_control_key@);
                let active = settings.mobile_control_enabled || env.relay_url is Some;
                match r {
                    Some(c) => active && url == Some(c.relay_url@) && room == Some(c.room@) && key
                        == Some(c.encryption_key@) && c.token@ == (match env.token {
                        Some(t) if trim(t@).len() > 0 => trim(t@),
                        _ => c.room@,
                    }),
                    None => !active || url is None || room is None || key is None,
                }
            }),
    {
        if !settings.mobile_control_enabled && env.relay_url.is_none() {
            return None;
        }
        let relay_url = match env_or_setting(
            match &env.relay_url {
                Some(s) => Some(s.as_str()),
                None => None,
            },
            settings.mobile_control_relay_url.as_str(),
        ) {
            Some(v) => v,
            None => return None,
        };
        let room = match env_or_setting(
            match &env.room {
                Some(s) => Some(s.as_str()),
                None => None,
            },
            settings.mobile_control_room.as_str(),
        ) {
            Some(v) => v,
            None => return None,
        };
        let token = match &env.token {
            Some(t) => {
                let tt = trim_str(t.as_str());
                if tt.as_str().is_empty() {
                    room.clone()
                } else {
                    tt
                }
            },
            None => room.clone(),
        };
        let encryption_key = match env_or_setting(
            match &env.key {
                Some(s) => Some(s.as_str()),
                None => None,
            },
            settings.mobile_control_key.as_str(),
        ) {
            Some(v) => v,
            None => return None,
        };
        Some(MobileRelayHostConfig { relay_url, room, token, encryption_key })
    }
}

/// The whitespace-separated words of `s` (`str::split_whitespace`).
pub open spec fn words(s: Seq<char>) -> Seq<Seq<char>>
    decreases s.len(),
{
    let t = trim_start(s);
    if t.len() == 0 {
        Seq::empty()
    } else {
        let k = word_end(t);
        proof {
            lemma_word_end(t);
            lemma_trim_start_len(s);
        }
        seq![t.take(k)] + words(t.skip(k))
    }
}

/// Length of the leading run of non-whitespace characters.
pub open spec fn word_end(s: Seq<char>) -> int
    decreases s.len(),
{
    if s.len() == 0 || is_ws(s[0]) {
        0
    } else {
        1 + word_end(s.drop_first())
    }
}

pub proof fn lemma_word_end(s: Seq<char>)
    ensures
        0 <= word_end(s) <= s.len(),
        s.len() > 0 && !is_ws(s[0]) ==> word_end(s) >= 1,
        forall|i: int| 0 <= i < word_end(s) ==> !is_ws(#[trigger] s[i]),
        word_end(s) < s.len() ==> is_ws(s[word_end(s)]),
    decreases s.len(),
{
    if s.len() > 0 && !is_ws(s[0]) {
        lemma_word_end(s.drop_first());
        assert forall|i: int| 0 <= i < word_end(s) implies !is_ws(#[trigger] s[i]) by {
            if i > 0 {
                assert(s[i] == s.drop_first()[i - 1]);
            }
        }
    }
}

pub proof fn lemma_trim_start_len(s: Seq<char>)
    ensures
        trim_start(s).len() <= s.len(),
        trim_start(s).len() > 0 ==> !is_ws(trim_start(s)[0]),
        exists|k: int| 0 <= k <= s.len() && trim_start(s) == s.skip(k),
    decreases s.len(),
{
    if s.len() > 0 && is_ws(s[0]) {
        lemma_trim_start_len(s.drop_first());
        let k = choose|k: int| 0 <= k <= s.drop_first().len() && trim_start(s.drop_first()) == s.drop_first().skip(k);
        assert(s.drop_first().skip(k) == s.skip(k + 1));
    } else {
        assert(s.skip(0) == s);
    }
}

/// The second word of `s`, if it has one.
pub open spec fn second_word(s: Seq<char>) -> Option<Seq<char>> {
    if words(s).len() > 1 {
        Some(words(s)[1])
    } else {
        None
    }
}

/// The words of `v[from..]` (see [`words`]).
pub fn words_vec(v: &Vec<char>) -> (r: Vec<Vec<char>>)
    ensures
        r@.len() == words(v@).len(),
        forall|k: int| 0 <= k < r@.len() ==> #[trigger] r@[k]@ == words(v@)[k],
{
    let mut out: Vec<Vec<char>> = Vec::new();
    let ghost mut acc: Seq<Seq<char>> = Seq::empty();
    let mut pos: usize = 0;
    proof {
        assert(v@.skip(0) == v@);
    }
    while pos < v.len()
        invariant
            pos <= v.len(),
            out@.len() == acc.len(),
            forall|k: int| 0 <= k < out@.len() ==> #[trigger] out@[k]@ == acc[k],
            acc + words(v@.skip(pos as int)) == words(v@),
        decreases v.len() - pos,
    {
        let ghost rest = v@.skip(pos as int);
        if crate::text::is_ws_char(v[pos]) {
            proof {
                assert(rest.drop_first() == v@.skip(pos + 1));
                assert(trim_start(rest) == trim_start(v@.skip(pos + 1)));
                assert(words(rest) == words(v@.skip(pos + 1)));
            }
            pos = pos + 1;
        } else {
            let mut end = pos;
            while end < v.len() && !crate::text::is_ws_char(v[end])
                invariant
                    pos <= end <= v.len(),
                    rest == v@.skip(pos as int),
                    forall|i: int| pos <= i < end ==> !is_ws(#[trigger] v@[i]),
                decreases v.len() - end,
            {
                end = end + 1;
            }
            let mut w = Vec::new();
            push_range(&mut w, v, pos, end);
            proof {
                assert(trim_start(rest) == rest);
                lemma_word_end(rest);
                let k = word_end(rest);
                assert(k == end - pos) by {
                    if k < end - pos {
                        assert(is_ws(rest[k]));
                        assert(rest[k] == v@[pos + k]);
                    }
                    if k > end - pos {
                        assert(!is_ws(rest[end - pos]));
                        assert(rest[end - pos] == v@[end as int]);
                    }
                }
                assert(rest.take(k) == w@);
                assert(rest.skip(k) == v@.skip(end as int));
                assert(words(rest) == seq![w@] + words(v@.skip(end as int)));
                acc = acc.push(w@);
                assert(acc + words(v@.skip(end as int)) == words(v@)) by {
                    assert(acc.drop_last() + (seq![w@] + words(v@.skip(end as int))) == acc
                        + words(v@.skip(end as int)));
                }
            }
            out.push(w);
            pos = end;
        }
    }
    proof {
        assert(v@.skip(pos as int).len() == 0);
        assert(trim_start(v@.skip(pos as int)).len() == 0);
        assert(acc + words(v@.skip(pos as int)) == acc);
    }
    out
}

/// A helper response as the relay forwards it.
#[derive(Debug)]
pub struct MobileRelayHttpResponse {
    pub status: u16,
    /// Header names (lower-cased) and values, in the order of the response;
    /// a later header with the same name replaces an earlier one.
    pub headers: Vec<(String, String)>,
    pub body: String,
}

/// The status code of a response head: the second word of its first line,
/// 502 when that is not a number.
pub open spec fn status_of(head: Seq<char>) -> u16 {
    let first = if lines(head).len() > 0 {
        lines(head)[0]
    } else {
        Seq::empty()
    };
    match second_word(first) {
        Some(w) => match parse_u16(w) {
            Some(p) => p,
            None => 502,
        },
        None => 502,
    }
}

/// The header pairs of the lines after the status line: lower-cased trimmed
/// name, trimmed value, for every line with a `:`.
pub open spec fn header_pairs(ls: Seq<Seq<char>>) -> Seq<(Seq<char>, Seq<char>)>
    decreases ls.len(),
{
    if ls.len() == 0 {
        Seq::empty()
    } else {
        match split_once(ls[0], ':') {
            Some((n, v)) => seq![(lower_seq(trim(n)), trim(v))] + header_pairs(ls.drop_first()),
            None => header_pairs(ls.drop_first()),
        }
    }
}

/// Errors of reading a helper response.
#[derive(Debug, PartialEq, Eq)]
pub enum HttpResponseError {
    /// The text holds no blank line between head and body.
    InvalidResponse,
}

pub open spec fn pair_views(v: Seq<(String, String)>) -> Seq<(Seq<char>, Seq<char>)> {
    v.map_values(|p: (String, String)| (p.0@, p.1@))
}

/// Reads a raw helper response (as text): status, headers and body.
pub fn parse_mobile_relay_http_response_text(text: &str) -> (r: Result<
    MobileRelayHttpResponse,
    HttpResponseError,
>)
    ensures
        !crate::text::contains(text@, "\r\n\r\n"@) ==> r == Err::<
            MobileRelayHttpResponse,
            HttpResponseError,
        >(HttpResponseError::InvalidResponse),
        crate::text::contains(text@, "\r\n\r\n"@) ==> (r matches Ok(resp) && {
            let head = crate::http::head_of(text@);
            &&& resp.status == status_of(head)
            &&& pair_views(resp.headers@) == header_pairs(
                if lines(head).len() > 0 {
                    lines(head).drop_first()
                } else {
                    lines(head)
                },
            )
            &&& resp.body@ == crate::http::body_of(text@)
        }),
{
    let v = chars_of(text);
    let pat = chars_of("\r\n\r\n");
    proof {
        reveal_strlit("\r\n\r\n");
    }
    let n = v.len();
    let i = match crate::text::find_vec(&v, &pat) {
        Some(i) => i,
        None => return Err(HttpResponseError::InvalidResponse),
    };
    proof {
        assert(i + 4 <= n);
    }
    let mut head = Vec::new();
    push_range(&mut head, &v, 0, i);
    let body = string_from_range(&v, i + 4, v.len());
    proof {
        assert(crate::text::contains(v@, "\r\n\r\n"@));
        let k = choose|k: int| crate::text::occurs_at(v@, "\r\n\r\n"@, k) && forall|j: int|
            0 <= j < k ==> !crate::text::occurs_at(v@, "\r\n\r\n"@, j);
        if k < i {
            assert(!crate::text::occurs_at(v@, pat@, k));
        }
        if i < k {
            assert(!crate::text::occurs_at(v@, pat@, i as int));
        }
        assert(head@ == crate::http::head_of(text@));
        assert(body@ == crate::http::body_of(text@));
    }
    let ls = lines_vec(&head);
    let status = if ls.len() > 0 {
        let ws = words_vec(&ls[0]);
        if ws.len() > 1 {
            match parse_u16_vec(&ws[1]) {
                Some(p) => p,
                None => 502,
            }
        } else {
            502
        }
    } else {
        502
    };
    let ghost all = lines(head@);
    let ghost tail = if all.len() > 0 {
        all.drop_first()
    } else {
        all
    };
    let mut headers: Vec<(String, String)> = Vec::new();
    let mut j: usize = if ls.len() > 0 {
        1
    } else {
        0
    };
    proof {
        if all.len() > 0 {
            assert(tail == all.skip(1));
        } else {
            assert(tail == all.skip(0));
        }
    }
    while j < ls.len()
        invariant
            j <= ls.len(),
            ls@.len() == all.len(),
            ls@.len() > 0 ==> j >= 1,
            forall|k: int| 0 <= k < ls@.len() ==> #[trigger] ls@[k]@ == all[k],
            tail == (if all.len() > 0 {
                all.drop_first()
            } else {
                all
            }),
            pair_views(headers@) + header_pairs(all.skip(j as int)) == header_pairs(tail),
        decreases ls.len() - j,
    {
        let line = &ls[j];
        let ghost rest = all.skip(j as int);
        proof {
            assert(rest[0] == line@);
            assert(rest.drop_first() == all.skip(j + 1));
        }
        match split_once_index(line, ':') {
            Some(k) => {
                let mut nm = Vec::new();
                push_range(&mut nm, line, 0, k);
                let mut val = Vec::new();
                push_range(&mut val, line, k + 1, line.len());
                proof {
                    assert(nm@ == line@.take(k as int));
                    assert(val@ == line@.skip(k + 1));
                }
                let name = string_from_chars(&lower_vec(&trim_vec(&nm)));
                let value = string_from_chars(&trim_vec(&val));
                let ghost before = headers@;
                headers.push((name, value));
                proof {
                    assert(pair_views(headers@) =~= pair_views(before).push((name@, value@)));
                    assert(pair_views(headers@) + header_pairs(all.skip(j + 1)) =~= pair_views(
                        before,
                    ) + header_pairs(rest));
                }
            },
            None => {},
        }
        j = j + 1;
    }
    proof {
        assert(all.skip(j as int).len() == 0);
        assert(pair_views(headers@) + header_pairs(all.skip(j as int)) == pair_views(headers@));
    }
    Ok(MobileRelayHttpResponse { status, headers, body })
}

/// Reads a raw helper response from its bytes (decoded as lossy UTF-8).
pub fn parse_mobile_relay_http_response(bytes: &[u8]) -> (r: Result<
    MobileRelayHttpResponse,
    HttpResponseError,
>)
    ensures
        !crate::text::contains(utf8_lossy(bytes@), "\r\n\r\n"@) ==> r == Err::<
            MobileRelayHttpResponse,
            HttpResponseError,
        >(HttpResponseError::InvalidResponse),
        crate::text::contains(utf8_lossy(bytes@), "\r\n\r\n"@) ==> (r matches Ok(resp) && {
            let head = crate::http::head_of(utf8_lossy(bytes@));
            &&& resp.status == status_of(head)
            &&& pair_views(resp.headers@) == header_pairs(
                if lines(head).len() > 0 {
                    lines(head).drop_first()
                } else {
                    lines(head)
                },
            )
            &&& resp.body@ == crate::http::body_of(utf8_lossy(bytes@))
        }),
{
    let text = lossy_text(bytes);
    parse_mobile_relay_http_response_text(text.as_str())
}

} // verus!
