//! Zed remote targets: SSH URLs and the command-line arguments that open them.
use vstd::prelude::*;
use vstd::string::StringSliceAdditionalSpecFns;
use crate::encoding::{pct_encode, push_pct_encoded};
use crate::json::{JsonValue, as_str, get, member};
use crate::text::{chars_of, decimal, is_ascii_alnum, is_ascii_alnum_char, is_ascii_digit, owned, push_all, push_decimal, string_from_chars, vec_eq_str};

verus! {

/// An SSH destination: user (possibly empty), host and optional port.
#[derive(Debug, PartialEq, Eq)]
pub struct SshTarget {
    pub user: String,
    pub host: String,
    pub port: Option<u16>,
}

/// Errors of the Zed remote logic.
#[derive(Debug)]
pub enum ZedRemoteError {
    /// The input does not describe a remote location Zed can open.
    Validation(&'static str),
}

/// How Zed opens a remote location.
#[derive(Debug, Clone, Copy, PartialEq, Eq)]
pub enum ZedOpenStrategy {
    AddToFocusedWorkspace,
    ReuseWindow,
    NewWindow,
    Default,
}

impl Default for ZedOpenStrategy {
    fn default() -> (r: Self)
        ensures
            r == ZedOpenStrategy::AddToFocusedWorkspace,
    {
        ZedOpenStrategy::AddToFocusedWorkspace
    }
}

/// Characters allowed in a user name or a host name.
pub open spec fn is_name_char(c: char) -> bool {
    is_ascii_alnum(c) || c == '.' || c == '-' || c == '_'
}

pub open spec fn is_hex_char(c: char) -> bool {
    is_ascii_digit(c) || ('a' <= c && c <= 'f') || ('A' <= c && c <= 'F')
}

/// A bracketed IPv6 literal such as `[::1]`.
pub open spec fn is_bracketed_host(h: Seq<char>) -> bool {
    &&& h.len() > 2
    &&& h[0] == '['
    &&& h.last() == ']'
    &&& forall|i: int| 1 <= i < h.len() - 1 ==> is_hex_char(#[trigger] h[i]) || h[i] == ':' || h[i] == '.'
}

/// A host that can stand in an `ssh://` URL.
pub open spec fn valid_host(h: Seq<char>) -> bool {
    ||| is_bracketed_host(h)
    ||| (h.len() > 0 && forall|i: int| 0 <= i < h.len() ==> is_name_char(#[trigger] h[i]))
}

/// A user that can stand in an `ssh://` URL (possibly empty).
pub open spec fn valid_user(u: Seq<char>) -> bool {
    forall|i: int| 0 <= i < u.len() ==> is_name_char(#[trigger] u[i])
}

/// `user@` when there is a user, nothing otherwise.
pub open spec fn user_part(u: Seq<char>) -> Seq<char> {
    if u.len() > 0 {
        u.push('@')
    } else {
        Seq::empty()
    }
}

/// `:port` when there is a port, nothing otherwise.
pub open spec fn port_part(p: Option<u16>) -> Seq<char> {
    match p {
        Some(p) => seq![':'] + decimal(p as nat),
        None => Seq::empty(),
    }
}

/// The URL for `target` and `path`, or the message of the validation error.
pub open spec fn zed_url(user: Seq<char>, host: Seq<char>, port: Option<u16>, path: Seq<char>) -> Result<
    Seq<char>,
    &'static str,
> {
    if !valid_host(host) {
        Err("Invalid SSH host")
    } else if !valid_user(user) {
        Err("Invalid SSH user")
    } else if !(path.len() > 0 && path[0] == '/') {
        Err("Remote path must be absolute")
    } else {
        Ok("ssh://"@ + user_part(user) + host + port_part(port) + pct_encode(
            encode_utf8_of(path),
            true,
        ))
    }
}

/// The UTF-8 bytes of a character sequence.
pub open spec fn encode_utf8_of(s: Seq<char>) -> Seq<u8> {
    vstd::utf8::encode_utf8(s)
}

fn all_name_chars(v: &Vec<char>, from: usize, to: usize) -> (b: bool)
    requires
        from <= to <= v.len(),
    ensures
        b == forall|i: int| from <= i < to ==> is_name_char(#[trigger] v@[i]),
{
    let mut i = from;
    while i < to
        invariant
            from <= i <= to <= v.len(),
            forall|k: int| from <= k < i ==> is_name_char(#[trigger] v@[k]),
        decreases to - i,
    {
        let c = v[i];
        if !(is_ascii_alnum_char(c) || c == '.' || c == '-' || c == '_') {
            return false;
        }
        i = i + 1;
    }
    true
}

fn is_valid_host(h: &Vec<char>) -> (b: bool)
    ensures
        b == valid_host(h@),
{
    if h.len() > 2 && h[0] == '[' && h[h.len() - 1] == ']' {
        let mut i: usize = 1;
        while i < h.len() - 1
            invariant
                h.len() > 2,
                h@[0] == '[',
                h@.last() == ']',
                1 <= i <= h.len() - 1,
                forall|k: int| 1 <= k < i ==> is_hex_char(#[trigger] h@[k]) || h@[k] == ':' || h@[k]
                    == '.',
            decreases h.len() - i,
        {
            let c = h[i];
            let ok = ('0' <= c && c <= '9') || ('a' <= c && c <= 'f') || ('A' <= c && c <= 'F')
                || c == ':' || c == '.';
            if !ok {
                proof {
                    assert(!is_bracketed_host(h@));
                    assert(!is_name_char(h@[0]));
                }
                return false;
            }
            i = i + 1;
        }
        return true;
    }
    if h.len() == 0 {
        return false;
    }
    let r = all_name_chars(h, 0, h.len());
    proof {
        if h@.len() >= 1 && h@[0] == '[' {
            assert(!is_name_char(h@[0]));
        }
    }
    r
}

/// The `ssh://` URL that opens `path` on `target` in Zed.
///
/// The path is percent-encoded byte by byte, keeping `/` and the unreserved
/// characters; the user, when present, is written before `@`, and the port,
/// when present, after `:`.
pub fn build_zed_remote_url(target: &SshTarget, path: &str) -> (r: Result<String, ZedRemoteError>)
    ensures
        match zed_url(target.user@, target.host@, target.port, path@) {
            Ok(url) => r matches Ok(s) && s@ == url,
            Err(msg) => r matches Err(ZedRemoteError::Validation(m)) && m == msg,
        },
{
    let host = chars_of(target.host.as_str());
    let user = chars_of(target.user.as_str());
    let p = chars_of(path);
    if !is_valid_host(&host) {
        return Err(ZedRemoteError::Validation("Invalid SSH host"));
    }
    if !all_name_chars(&user, 0, user.len()) {
        return Err(ZedRemoteError::Validation("Invalid SSH user"));
    }
    if !(p.len() > 0 && p[0] == '/') {
        return Err(ZedRemoteError::Validation("Remote path must be absolute"));
    }
    let mut out = chars_of("ssh://");
    if user.len() > 0 {
        push_all(&mut out, &user);
        out.push('@');
    }
    push_all(&mut out, &host);
    match target.port {
        Some(port) => {
            out.push(':');
            push_decimal(&mut out, port as u64);
        },
        None => {},
    }
    push_pct_encoded(&mut out, path, true);
    proof {
        assert(out@ == "ssh://"@ + user_part(user@) + host@ + port_part(target.port) + pct_encode(
            encode_utf8_of(path@),
            true,
        ));
    }
    Ok(string_from_chars(&out))
}

/// The arguments of the `zed` command that open `url` with `strategy`.
pub open spec fn zed_args(strategy: ZedOpenStrategy, url: Seq<char>) -> Seq<Seq<char>> {
    match strategy {
        ZedOpenStrategy::AddToFocusedWorkspace => seq!["-a"@, url],
        ZedOpenStrategy::ReuseWindow => seq!["-r"@, url],
        ZedOpenStrategy::NewWindow => seq!["-n"@, url],
        ZedOpenStrategy::Default => seq![url],
    }
}

/// Command-line arguments that make Zed open `url` with `strategy`.
pub fn zed_cli_args_for_strategy(strategy: ZedOpenStrategy, url: &str) -> (r: Vec<String>)
    ensures
        r@.len() == zed_args(strategy, url@).len(),
        forall|i: int| 0 <= i < r@.len() ==> #[trigger] r@[i]@ == zed_args(strategy, url@)[i],
{
    let mut r: Vec<String> = Vec::new();
    match strategy {
        ZedOpenStrategy::AddToFocusedWorkspace => r.push(owned("-a")),
        ZedOpenStrategy::ReuseWindow => r.push(owned("-r")),
        ZedOpenStrategy::NewWindow => r.push(owned("-n")),
        ZedOpenStrategy::Default => {},
    }
    r.push(owned(url));
    r
}

/// The strategy named by a payload's `strategy` member (camel-case names);
/// anything else, including no member, means adding to the focused workspace.
pub open spec fn strategy_named(name: Option<Seq<char>>) -> ZedOpenStrategy {
    match name {
        Some(n) => if n == "reuseWindow"@ {
            ZedOpenStrategy::ReuseWindow
        } else if n == "newWindow"@ {
            ZedOpenStrategy::NewWindow
        } else if n == "default"@ {
            ZedOpenStrategy::Default
        } else {
            ZedOpenStrategy::AddToFocusedWorkspace
        },
        None => ZedOpenStrategy::AddToFocusedWorkspace,
    }
}

/// The open strategy requested by `payload`.
pub fn zed_open_strategy_from_payload(payload: &JsonValue) -> (r: ZedOpenStrategy)
    ensures
        r == strategy_named(as_str(get(*payload, "strategy"@))),
{
    match payload.get("strategy") {
        Some(v) => match v.as_str() {
            Some(s) => {
                let n = chars_of(s);
                if vec_eq_str(&n, "reuseWindow") {
                    ZedOpenStrategy::ReuseWindow
                } else if vec_eq_str(&n, "newWindow") {
                    ZedOpenStrategy::NewWindow
                } else if vec_eq_str(&n, "default") {
                    ZedOpenStrategy::Default
                } else {
                    ZedOpenStrategy::AddToFocusedWorkspace
                }
            },
            None => ZedOpenStrategy::AddToFocusedWorkspace,
        },
        None => ZedOpenStrategy::AddToFocusedWorkspace,
    }
}

} // verus!
