//! The mobile relay server: registration of hosts and clients, rooms, and
//! the forwarding of messages between the two peers of a room.
use vstd::prelude::*;
use vstd::string::StringSliceAdditionalSpecFns;
use vstd::utf8::{
    encode_utf8, encode_utf8_decode_utf8, encode_utf8_valid_utf8, is_ascii_chars,
    is_ascii_chars_encode_utf8,
};
use crate::encoding::{
    hex_upper_byte, is_unreserved, lemma_pct_encode_bytes_front, lemma_pct_encode_bytes_plain,
    lemma_pct_encode_utf8, pct_byte_bytes, pct_encode, pct_encode_bytes,
};
use crate::http::{lossy_text, utf8_lossy};
use crate::mobile::{host_query, second_word, words_vec};
use crate::text::{
    chars_of, contains, contains_vec, decimal, find_char, lemma_find_char, lines, lines_vec,
    lower_seq, lower_vec, push_decimal, push_range, push_str, split_once_index, string_from_chars,
    trim, trim_vec, vec_eq_str,
};

verus! {

/// The side of a room a peer registers as.
#[derive(Debug, Clone, Copy, PartialEq, Eq)]
pub enum Role {
    Host,
    Client,
}

pub open spec fn role_named(s: Seq<char>) -> Option<Role> {
    if s == "host"@ {
        Some(Role::Host)
    } else if s == "client"@ {
        Some(Role::Client)
    } else {
        None
    }
}

pub open spec fn role_name(r: Role) -> Seq<char> {
    match r {
        Role::Host => "host"@,
        Role::Client => "client"@,
    }
}

pub open spec fn other_role(r: Role) -> Role {
    match r {
        Role::Host => Role::Client,
        Role::Client => Role::Host,
    }
}

impl Role {
    /// The role named `value` (`host` or `client`).
    pub fn from_str(value: &str) -> (r: Option<Role>)
        ensures
            r == role_named(value@),
    {
        let v = chars_of(value);
        if vec_eq_str(&v, "host") {
            Some(Role::Host)
        } else if vec_eq_str(&v, "client") {
            Some(Role::Client)
        } else {
            None
        }
    }

    /// The name of the role.
    pub fn as_str(self) -> (r: &'static str)
        ensures
            r@ == role_name(self),
    {
        match self {
            Role::Host => "host",
            Role::Client => "client",
        }
    }
}

/// A registered peer: its role and the room it joins with the room's token.
#[derive(Debug)]
pub struct Registration {
    pub role: Role,
    pub room: String,
    pub token: String,
}

/// The fields of a registration message, as received.
#[derive(Debug)]
pub struct RegisterMessage {
    pub message_type: String,
    pub role: String,
    pub room: String,
    pub token: String,
}

/// Why a registration message is refused.
#[derive(Debug, PartialEq, Eq)]
pub enum RegistrationError {
    /// The message type is not `register`.
    NotRegister,
    /// The room is empty (after trimming).
    RoomRequired,
    /// The token is empty (after trimming).
    TokenRequired,
    /// The role is neither `host` nor `client`.
    InvalidRole,
}

/// The outcome of a registration message.
pub open spec fn registration_outcome(m: RegisterMessage) -> Result<Role, RegistrationError> {
    if m.message_type@ != "register"@ {
        Err(RegistrationError::NotRegister)
    } else if trim(m.room@).len() == 0 {
        Err(RegistrationError::RoomRequired)
    } else if trim(m.token@).len() == 0 {
        Err(RegistrationError::TokenRequired)
    } else {
        match role_named(m.role@) {
            Some(r) => Ok(r),
            None => Err(RegistrationError::InvalidRole),
        }
    }
}

/// Checks a registration message; room and token are kept as sent.
pub fn parse_registration(message: RegisterMessage) -> (r: Result<Registration, RegistrationError>)
    ensures
        match registration_outcome(message) {
            Ok(role) => r matches Ok(reg) && reg.role == role && reg.room@ == message.room@
                && reg.token@ == message.token@,
            Err(e) => r == Err::<Registration, RegistrationError>(e),
        },
{
    let t = chars_of(message.message_type.as_str());
    if !vec_eq_str(&t, "register") {
        return Err(RegistrationError::NotRegister);
    }
    if trim_vec(&chars_of(message.room.as_str())).len() == 0 {
        return Err(RegistrationError::RoomRequired);
    }
    if trim_vec(&chars_of(message.token.as_str())).len() == 0 {
        return Err(RegistrationError::TokenRequired);
    }
    match Role::from_str(message.role.as_str()) {
        Some(role) => Ok(Registration { role, room: message.room, token: message.token }),
        None => Err(RegistrationError::InvalidRole),
    }
}

pub open spec fn is_hex_byte(b: u8) -> bool {
    (0x30 <= b && b <= 0x39) || (0x41 <= b && b <= 0x46) || (0x61 <= b && b <= 0x66)
}

pub open spec fn hex_val(b: u8) -> u8 {
    if b <= 0x39 {
        (b - 0x30) as u8
    } else if b <= 0x46 {
        (b - 0x37) as u8
    } else {
        (b - 0x57) as u8
    }
}

/// `u8::from_str_radix` on the two bytes `a b` in base 16: two hex digits,
/// or a `+` sign followed by one.
pub open spec fn hex_pair(a: u8, b: u8) -> Option<u8> {
    if is_hex_byte(a) && is_hex_byte(b) {
        Some((hex_val(a) * 16 + hex_val(b)) as u8)
    } else if a == 0x2b && is_hex_byte(b) {
        Some(hex_val(b))
    } else {
        None
    }
}

/// Percent-decoding of `bytes[i..]`: `+` is a space, `%XY` a byte when `XY`
/// reads as hex (and `%` stays otherwise), every other byte stays.
pub open spec fn pct_decode_from(bytes: Seq<u8>, i: int) -> Seq<u8>
    decreases bytes.len() - i,
{
    if i < 0 || i >= bytes.len() {
        Seq::empty()
    } else if bytes[i] == 0x2b {
        seq![0x20u8] + pct_decode_from(bytes, i + 1)
    } else if bytes[i] == 0x25 && i + 2 < bytes.len() {
        match hex_pair(bytes[i + 1], bytes[i + 2]) {
            Some(v) => seq![v] + pct_decode_from(bytes, i + 3),
            None => seq![0x25u8] + pct_decode_from(bytes, i + 1),
        }
    } else {
        seq![bytes[i]] + pct_decode_from(bytes, i + 1)
    }
}

pub open spec fn is_continuation(b: u8) -> bool {
    0x80 <= b && b < 0xc0
}

/// The decoder reads the two characters after each `%` as a string slice;
/// that slice must start and end on character boundaries.
pub open spec fn pct_decodable(bytes: Seq<u8>) -> bool {
    forall|i: int|
        0 <= i && i + 2 < bytes.len() && bytes[i] == 0x25 ==> !is_continuation(#[trigger] bytes[i
            + 1]) && (i + 3 == bytes.len() || !is_continuation(bytes[i + 3]))
}

fn hex_val_byte(b: u8) -> (r: u8)
    requires
        is_hex_byte(b),
    ensures
        r == hex_val(b),
        r < 16,
{
    if b <= 0x39 {
        b - 0x30
    } else if b <= 0x46 {
        b - 0x37
    } else {
        b - 0x57
    }
}

fn is_hex(b: u8) -> (r: bool)
    ensures
        r == is_hex_byte(b),
{
    (0x30 <= b && b <= 0x39) || (0x41 <= b && b <= 0x46) || (0x61 <= b && b <= 0x66)
}

proof fn lemma_push_concat(a: Seq<u8>, x: u8, b: Seq<u8>)
    ensures
        a.push(x) + b == a + (seq![x] + b),
{
    assert(a.push(x) + b =~= a + (seq![x] + b));
}

/// The percent-decoded bytes of `value`.
pub fn percent_decode_bytes(bytes: &[u8]) -> (r: Vec<u8>)
    ensures
        r@ == pct_decode_from(bytes@, 0),
{
    let mut out: Vec<u8> = Vec::new();
    let mut i: usize = 0;
    while i < bytes.len()
        invariant
            i <= bytes@.len(),
            out@ + pct_decode_from(bytes@, i as int) == pct_decode_from(bytes@, 0),
        decreases bytes.len() - i,
    {
        let b = bytes[i];
        let ghost before = out@;
        let ghost at = i as int;
        if b == 0x2b {
            out.push(0x20);
            i = i + 1;
            proof {
                lemma_push_concat(before, 0x20u8, pct_decode_from(bytes@, i as int));
            }
        } else if b == 0x25 && bytes.len() - i > 2 {
            let a = bytes[i + 1];
            let c = bytes[i + 2];
            if is_hex(a) && is_hex(c) {
                let hi = hex_val_byte(a);
                let lo = hex_val_byte(c);
                assert(hi * 16 + lo <= 255) by (nonlinear_arith)
                    requires
                        hi < 16,
                        lo < 16,
                ;
                let v = hi * 16 + lo;
                out.push(v);
                i = i + 3;
                proof {
                    lemma_push_concat(before, v, pct_decode_from(bytes@, i as int));
                }
            } else if a == 0x2b && is_hex(c) {
                let v = hex_val_byte(c);
                out.push(v);
                i = i + 3;
                proof {
                    lemma_push_concat(before, v, pct_decode_from(bytes@, i as int));
                }
            } else {
                out.push(0x25);
                i = i + 1;
                proof {
                    lemma_push_concat(before, 0x25u8, pct_decode_from(bytes@, i as int));
                }
            }
        } else {
            out.push(b);
            i = i + 1;
            proof {
                lemma_push_concat(before, b, pct_decode_from(bytes@, i as int));
            }
        }
    }
    out
}

/// Whether the decoder can read every `%` escape of `bytes` without
/// splitting a character.
pub fn percent_decodable(bytes: &[u8]) -> (r: bool)
    ensures
        r == pct_decodable(bytes@),
{
    let mut i: usize = 0;
    while i < bytes.len()
        invariant
            i <= bytes@.len(),
            forall|j: int|
                0 <= j < i && j + 2 < bytes@.len() && #[trigger] bytes@[j] == 0x25
                    ==> !is_continuation(bytes@[j + 1]) && (j + 3 == bytes@.len()
                    || !is_continuation(bytes@[j + 3])),
        decreases bytes.len() - i,
    {
        if bytes[i] == 0x25 && bytes.len() - i > 2 {
            let next = bytes[i + 1];
            if 0x80 <= next && next < 0xc0 {
                return false;
            }
            if bytes.len() - i > 3 {
                let after = bytes[i + 3];
                if 0x80 <= after && after < 0xc0 {
                    return false;
                }
            }
        }
        i = i + 1;
    }
    true
}

/// `percent_decode` on a query value: `+` is a space, `%XY` the byte `XY`
/// in hex, and the bytes are read as UTF-8 with invalid sequences replaced.
pub fn percent_decode(value: &str) -> (r: String)
    requires
        pct_decodable(value.spec_bytes()),
    ensures
        r@ == utf8_lossy(pct_decode_from(value.spec_bytes(), 0)),
{
    let decoded = percent_decode_bytes(value.as_bytes());
    lossy_text(decoded.as_slice())
}

/// The first index at or after `from` that holds `sep`, or the length.
pub open spec fn next_sep(s: Seq<u8>, from: int, sep: u8) -> int
    decreases s.len() - from,
{
    if from < 0 || from >= s.len() {
        s.len() as int
    } else if s[from] == sep {
        from
    } else {
        next_sep(s, from + 1, sep)
    }
}

/// The value of a `name=value` pair whose name is `key`.
pub open spec fn pair_value(pair: Seq<u8>, key: Seq<u8>) -> Option<Seq<u8>> {
    let eq = next_sep(pair, 0, 0x3d);
    if eq < pair.len() && pair.take(eq) == key {
        Some(pair.skip(eq + 1))
    } else {
        None
    }
}

/// The raw value of the first `&`-separated pair of `query[from..]` named
/// `key`.
pub open spec fn query_raw_from(query: Seq<u8>, key: Seq<u8>, from: int) -> Option<Seq<u8>>
    decreases query.len() - from,
{
    if from < 0 || from > query.len() {
        None
    } else {
        let end = next_sep(query, from, 0x26);
        proof {
            lemma_next_sep(query, from, 0x26);
        }
        match pair_value(query.subrange(from, end), key) {
            Some(v) => Some(v),
            None => if end >= query.len() {
                None
            } else {
                query_raw_from(query, key, end + 1)
            },
        }
    }
}

pub open spec fn query_raw(query: Seq<u8>, key: Seq<u8>) -> Option<Seq<u8>> {
    query_raw_from(query, key, 0)
}

/// The decoded text of a raw query value.
pub open spec fn decoded_text(raw: Seq<u8>) -> Seq<char> {
    utf8_lossy(pct_decode_from(raw, 0))
}

pub proof fn lemma_next_sep(s: Seq<u8>, from: int, sep: u8)
    requires
        0 <= from <= s.len(),
    ensures
        from <= next_sep(s, from, sep) <= s.len(),
        next_sep(s, from, sep) < s.len() ==> s[next_sep(s, from, sep)] == sep,
        forall|j: int| from <= j < next_sep(s, from, sep) ==> s[j] != sep,
    decreases s.len() - from,
{
    if from < s.len() && s[from] != sep {
        lemma_next_sep(s, from + 1, sep);
    }
}

fn find_byte(s: &[u8], from: usize, sep: u8) -> (r: usize)
    requires
        from <= s@.len(),
    ensures
        r == next_sep(s@, from as int, sep),
{
    let mut i = from;
    while i < s.len()
        invariant
            from <= i <= s@.len(),
            next_sep(s@, from as int, sep) == next_sep(s@, i as int, sep),
        decreases s.len() - i,
    {
        if s[i] == sep {
            assert(next_sep(s@, i as int, sep) == i);
            return i;
        }
        assert(next_sep(s@, i as int, sep) == next_sep(s@, i + 1, sep));
        i = i + 1;
    }
    i
}

fn copy_range(s: &[u8], from: usize, to: usize) -> (r: Vec<u8>)
    requires
        from <= to <= s@.len(),
    ensures
        r@ == s@.subrange(from as int, to as int),
{
    let mut out: Vec<u8> = Vec::new();
    let mut i = from;
    while i < to
        invariant
            from <= i <= to <= s@.len(),
            out@ == s@.subrange(from as int, i as int),
        decreases to - i,
    {
        out.push(s[i]);
        i = i + 1;
        assert(out@ =~= s@.subrange(from as int, i as int));
    }
    out
}

fn range_eq(s: &[u8], from: usize, to: usize, key: &[u8]) -> (r: bool)
    requires
        from <= to <= s@.len(),
    ensures
        r == (s@.subrange(from as int, to as int) == key@),
{
    if to - from != key.len() {
        return false;
    }
    let mut i: usize = 0;
    while i < key.len()
        invariant
            to - from == key@.len(),
            from <= to <= s@.len(),
            i <= key@.len(),
            forall|j: int| 0 <= j < i ==> s@[from + j] == key@[j],
        decreases key.len() - i,
    {
        if s[from + i] != key[i] {
            assert(s@.subrange(from as int, to as int)[i as int] != key@[i as int]);
            return false;
        }
        i = i + 1;
    }
    assert(s@.subrange(from as int, to as int) =~= key@);
    true
}

/// The raw (still encoded) value of the first pair of `query` named `key`.
pub fn query_raw_value(query: &str, key: &str) -> (r: Option<Vec<u8>>)
    ensures
        match query_raw(query.spec_bytes(), key.spec_bytes()) {
            Some(v) => r matches Some(w) && w@ == v,
            None => r is None,
        },
{
    let q = query.as_bytes();
    let k = key.as_bytes();
    let mut from: usize = 0;
    while from <= q.len()
        invariant
            from <= q@.len() + 1,
            q@ == query.spec_bytes(),
            k@ == key.spec_bytes(),
            from <= q@.len() ==> query_raw_from(q@, k@, from as int) == query_raw(q@, k@),
            from > q@.len() ==> query_raw(q@, k@) is None,
        decreases q.len() + 1 - from,
    {
        let end = find_byte(q, from, 0x26);
        proof {
            lemma_next_sep(q@, from as int, 0x26);
        }
        let eq = find_byte(q, from, 0x3d);
        proof {
            lemma_next_sep(q@, from as int, 0x3d);
            lemma_pair_sep(q@, from as int, end as int);
        }
        if eq < end && range_eq(q, from, eq, k) {
            let v = copy_range(q, eq + 1, end);
            proof {
                let pair = q@.subrange(from as int, end as int);
                assert(pair.take(eq - from) =~= q@.subrange(from as int, eq as int));
                assert(pair.skip(eq - from + 1) =~= q@.subrange(eq + 1, end as int));
            }
            return Some(v);
        }
        proof {
            let pair = q@.subrange(from as int, end as int);
            if eq < end {
                assert(pair.take(eq - from) =~= q@.subrange(from as int, eq as int));
            }
        }
        if end >= q.len() {
            return None;
        }
        from = end + 1;
    }
    None
}

/// Within the pair `s[from..end]`, the first `=` sits where it does in `s`.
proof fn lemma_pair_sep(s: Seq<u8>, from: int, end: int)
    requires
        0 <= from <= end <= s.len(),
        end == next_sep(s, from, 0x26),
    ensures
        next_sep(s.subrange(from, end), 0, 0x3d) == if next_sep(s, from, 0x3d) < end {
            next_sep(s, from, 0x3d) - from
        } else {
            end - from
        },
{
    lemma_next_sep(s, from, 0x3d);
    lemma_next_sep_sub(s, from, end, from);
}

proof fn lemma_next_sep_sub(s: Seq<u8>, from: int, end: int, i: int)
    requires
        0 <= from <= i <= end <= s.len(),
    ensures
        next_sep(s.subrange(from, end), i - from, 0x3d) == if next_sep(s, i, 0x3d) < end {
            next_sep(s, i, 0x3d) - from
        } else {
            end - from
        },
    decreases end - i,
{
    lemma_next_sep(s, i, 0x3d);
    if i < end {
        lemma_next_sep_sub(s, from, end, i + 1);
    }
}

/// `query_value`: the decoded value of the first pair of `query` named `key`.
pub fn query_value(query: &str, key: &str) -> (r: Option<String>)
    requires
        query_raw(query.spec_bytes(), key.spec_bytes()) matches Some(v) ==> pct_decodable(v),
    ensures
        match query_raw(query.spec_bytes(), key.spec_bytes()) {
            Some(v) => r matches Some(t) && t@ == decoded_text(v),
            None => r is None,
        },
{
    match query_raw_value(query, key) {
        Some(raw) => {
            let decoded = percent_decode_bytes(raw.as_slice());
            Some(lossy_text(decoded.as_slice()))
        },
        None => None,
    }
}

/// The role a connection URL names: its path, or the `role` parameter of `/ws`.
pub open spec fn uri_role(path: Seq<char>, query: Seq<u8>) -> Option<Role> {
    if path == "/host"@ {
        Some(Role::Host)
    } else if path == "/client"@ {
        Some(Role::Client)
    } else if path == "/ws"@ {
        match query_raw(query, encode_utf8("role"@)) {
            Some(v) => role_named(decoded_text(v)),
            None => None,
        }
    } else {
        None
    }
}

/// The registration a connection URL carries: a role, and a room and token
/// that are not blank.
pub open spec fn uri_registration(path: Seq<char>, query: Option<Seq<u8>>) -> Option<
    (Role, Seq<char>, Seq<char>),
> {
    match query {
        None => None,
        Some(q) => match uri_role(path, q) {
            None => None,
            Some(role) => match (
                query_raw(q, encode_utf8("room"@)),
                query_raw(q, encode_utf8("token"@)),
            ) {
                (Some(rm), Some(tk)) => {
                    let room = decoded_text(rm);
                    let token = decoded_text(tk);
                    if trim(room).len() == 0 || trim(token).len() == 0 {
                        None
                    } else {
                        Some((role, room, token))
                    }
                },
                _ => None,
            },
        },
    }
}

/// The query values that `registration_from_uri` decodes can be decoded.
pub open spec fn uri_decodable(path: Seq<char>, query: Option<Seq<u8>>) -> bool {
    match query {
        None => true,
        Some(q) => {
            &&& (path == "/ws"@ ==> (query_raw(q, encode_utf8("role"@)) matches Some(v)
                ==> pct_decodable(v)))
            &&& (uri_role(path, q) is Some ==> (query_raw(q, encode_utf8("room"@)) matches Some(
                v,
            ) ==> pct_decodable(v) && (query_raw(q, encode_utf8("token"@)) matches Some(t)
                ==> pct_decodable(t))))
        },
    }
}

pub open spec fn query_bytes(query: Option<&str>) -> Option<Seq<u8>> {
    match query {
        Some(q) => Some(q.spec_bytes()),
        None => None,
    }
}

/// A registration read from the connection URL: `/host` or `/client`, or
/// `/ws` with a `role` parameter, and the `room` and `token` parameters.
pub fn registration_from_uri(path: &str, query: Option<&str>) -> (r: Option<Registration>)
    requires
        uri_decodable(path@, query_bytes(query)),
    ensures
        match uri_registration(path@, query_bytes(query)) {
            Some((role, room, token)) => r matches Some(reg) && reg.role == role && reg.room@
                == room && reg.token@ == token,
            None => r is None,
        },
{
    let query = match query {
        Some(q) => q,
        None => return None,
    };
    let p = chars_of(path);
    let role = if vec_eq_str(&p, "/host") {
        Role::Host
    } else if vec_eq_str(&p, "/client") {
        Role::Client
    } else if vec_eq_str(&p, "/ws") {
        match query_value(query, "role") {
            Some(name) => match Role::from_str(name.as_str()) {
                Some(role) => role,
                None => return None,
            },
            None => return None,
        }
    } else {
        return None;
    };
    let room = match query_value(query, "room") {
        Some(room) => room,
        None => return None,
    };
    let token = match query_value(query, "token") {
        Some(token) => token,
        None => return None,
    };
    if trim_vec(&chars_of(room.as_str())).len() == 0 || trim_vec(&chars_of(token.as_str())).len()
        == 0 {
        return None;
    }
    Some(Registration { role, room, token })
}

/// Whether `registration_from_uri` can decode what it reads of this URL.
pub fn registration_uri_decodable(path: &str, query: Option<&str>) -> (r: bool)
    ensures
        r == uri_decodable(path@, query_bytes(query)),
{
    let query = match query {
        Some(q) => q,
        None => return true,
    };
    let p = chars_of(path);
    let is_ws = vec_eq_str(&p, "/ws");
    proof {
        reveal_strlit("/ws");
        reveal_strlit("/host");
        reveal_strlit("/client");
    }
    let mut role_found = vec_eq_str(&p, "/host") || vec_eq_str(&p, "/client");
    if is_ws {
        match query_raw_value(query, "role") {
            Some(raw) => {
                if !percent_decodable(raw.as_slice()) {
                    return false;
                }
                let decoded = percent_decode_bytes(raw.as_slice());
                let name = lossy_text(decoded.as_slice());
                role_found = Role::from_str(name.as_str()).is_some();
                assert(path@.len() == 3 && "/host"@.len() == 5 && "/client"@.len() == 7);
            },
            None => {},
        }
    }
    if !role_found {
        return true;
    }
    match query_raw_value(query, "room") {
        Some(raw) => {
            if !percent_decodable(raw.as_slice()) {
                return false;
            }
            match query_raw_value(query, "token") {
                Some(t) => percent_decodable(t.as_slice()),
                None => true,
            }
        },
        None => true,
    }
}

/// The first bytes of a connection look like a websocket upgrade: their
/// lowercased text has an `upgrade: websocket` or `sec-websocket-key:`
/// header line.
pub open spec fn websocket_head(head: Seq<u8>) -> bool {
    let text = lower_seq(utf8_lossy(head));
    contains(text, "\r\nupgrade: websocket"@) || contains(text, "\r\nsec-websocket-key:"@)
}

/// Whether the peeked bytes `head` start a websocket handshake.
pub fn looks_like_websocket(head: &[u8]) -> (r: bool)
    ensures
        r == websocket_head(head@),
{
    let text = lossy_text(head);
    let lowered = lower_vec(&chars_of(text.as_str()));
    contains_vec(&lowered, &chars_of("\r\nupgrade: websocket")) || contains_vec(
        &lowered,
        &chars_of("\r\nsec-websocket-key:"),
    )
}

/// The pages the relay serves over plain HTTP.
#[derive(Debug, Clone, Copy, PartialEq, Eq)]
pub enum RelayPage {
    TestPage,
    MobilePage,
    Health,
    Status,
    NotFound,
}

/// The path of an HTTP request: the second word of its first line (or `/`),
/// without the query.
pub open spec fn request_path(request: Seq<char>) -> Seq<char> {
    let first = if lines(request).len() > 0 {
        lines(request)[0]
    } else {
        Seq::empty()
    };
    let target = match second_word(first) {
        Some(w) => w,
        None => "/"@,
    };
    match find_char(target, '?') {
        Some(i) => target.take(i),
        None => target,
    }
}

pub open spec fn page_for(path: Seq<char>) -> RelayPage {
    if path == "/"@ || path == "/index.html"@ {
        RelayPage::TestPage
    } else if path == "/mobile"@ {
        RelayPage::MobilePage
    } else if path == "/health"@ {
        RelayPage::Health
    } else if path == "/status"@ {
        RelayPage::Status
    } else {
        RelayPage::NotFound
    }
}

/// The page an HTTP request to the relay asks for.
pub fn relay_page(request: &str) -> (r: RelayPage)
    ensures
        r == page_for(request_path(request@)),
{
    let all = lines_vec(&chars_of(request));
    let first: Vec<char> = if all.len() > 0 {
        all[0].clone()
    } else {
        Vec::new()
    };
    let words = words_vec(&first);
    let target: Vec<char> = if words.len() > 1 {
        words[1].clone()
    } else {
        chars_of("/")
    };
    proof {
        assert(first@ == (if lines(request@).len() > 0 {
            lines(request@)[0]
        } else {
            Seq::<char>::empty()
        }));
    }
    let path: Vec<char> = match split_once_index(&target, '?') {
        Some(i) => {
            let mut p: Vec<char> = Vec::new();
            push_range(&mut p, &target, 0, i);
            p
        },
        None => target,
    };
    proof {
        lemma_find_char(target@, '?');
        if find_char(target@, '?') is Some {
            assert(path@ =~= target@.take(find_char(target@, '?')->0));
        }
    }
    if vec_eq_str(&path, "/") || vec_eq_str(&path, "/index.html") {
        RelayPage::TestPage
    } else if vec_eq_str(&path, "/mobile") {
        RelayPage::MobilePage
    } else if vec_eq_str(&path, "/health") {
        RelayPage::Health
    } else if vec_eq_str(&path, "/status") {
        RelayPage::Status
    } else {
        RelayPage::NotFound
    }
}

/// The head of the relay's HTTP responses.
pub open spec fn response_head(status: Seq<char>, content_type: Seq<char>, length: nat) -> Seq<char> {
    "HTTP/1.1 "@ + status + "\r\nContent-Type: "@ + content_type
        + "\r\nCache-Control: no-store, no-cache, must-revalidate, max-age=0\r\nPragma: no-cache\r\nExpires: 0\r\nContent-Length: "@
        + decimal(length) + "\r\nConnection: close\r\n\r\n"@
}

/// The status line and headers of a response with a body of `length` bytes.
pub fn http_response_head(status: &str, content_type: &str, length: u64) -> (r: String)
    ensures
        r@ == response_head(status@, content_type@, length as nat),
{
    let mut out: Vec<char> = Vec::new();
    push_str(&mut out, "HTTP/1.1 ");
    push_str(&mut out, status);
    push_str(&mut out, "\r\nContent-Type: ");
    push_str(&mut out, content_type);
    push_str(
        &mut out,
        "\r\nCache-Control: no-store, no-cache, must-revalidate, max-age=0\r\nPragma: no-cache\r\nExpires: 0\r\nContent-Length: ",
    );
    push_decimal(&mut out, length);
    push_str(&mut out, "\r\nConnection: close\r\n\r\n");
    string_from_chars(&out)
}


/// Decoding a suffix does not depend on what stands before it.
proof fn lemma_decode_shift(pre: Seq<u8>, s: Seq<u8>, j: int)
    requires
        0 <= j,
    ensures
        pct_decode_from(pre + s, pre.len() + j) == pct_decode_from(s, j),
    decreases s.len() - j,
{
    let t = pre + s;
    let i = pre.len() + j;
    if j < s.len() {
        assert(t[i] == s[j]);
        if s[j] == 0x2b {
            lemma_decode_shift(pre, s, j + 1);
        } else if s[j] == 0x25 && j + 2 < s.len() {
            assert(t[i + 1] == s[j + 1]);
            assert(t[i + 2] == s[j + 2]);
            lemma_decode_shift(pre, s, j + 1);
            lemma_decode_shift(pre, s, j + 3);
        } else {
            lemma_decode_shift(pre, s, j + 1);
        }
    }
}

proof fn lemma_hex_round_trip(b: u8)
    ensures
        hex_pair(hex_upper_byte(b / 16), hex_upper_byte(b % 16)) == Some(b),
{
    let hi = b / 16;
    let lo = b % 16;
    assert(hi < 16 && lo < 16);
    assert(hi * 16 + lo == b);
    assert(is_hex_byte(hex_upper_byte(hi)) && hex_val(hex_upper_byte(hi)) == hi);
    assert(is_hex_byte(hex_upper_byte(lo)) && hex_val(hex_upper_byte(lo)) == lo);
}

/// Percent-decoding undoes percent-encoding (with `/` encoded too).
pub proof fn lemma_pct_decode_encoded(bytes: Seq<u8>)
    ensures
        pct_decode_from(pct_encode_bytes(bytes, false), 0) == bytes,
    decreases bytes.len(),
{
    if bytes.len() == 0 {
        assert(pct_encode_bytes(bytes, false) == Seq::<u8>::empty());
    } else {
        let b = bytes[0];
        let rest = bytes.drop_first();
        lemma_pct_encode_bytes_front(bytes, false);
        lemma_pct_decode_encoded(rest);
        let pb = pct_byte_bytes(b, false);
        let tail = pct_encode_bytes(rest, false);
        let t = pb + tail;
        if is_unreserved(b) {
            lemma_decode_shift(pb, tail, 0);
            assert(t[0] == b);
            assert(pct_decode_from(t, 0) == seq![b] + pct_decode_from(t, 1));
        } else {
            lemma_hex_round_trip(b);
            lemma_decode_shift(pb, tail, 0);
            assert(t[0] == 0x25u8 && t[1] == hex_upper_byte(b / 16) && t[2] == hex_upper_byte(
                b % 16,
            ));
            assert(pct_decode_from(t, 0) == seq![b] + pct_decode_from(t, 3));
        }
        assert(bytes =~= seq![b] + rest);
    }
}

/// A percent-encoding is always decodable: all its bytes are ASCII.
pub proof fn lemma_pct_encoded_decodable(bytes: Seq<u8>)
    ensures
        pct_decodable(pct_encode_bytes(bytes, false)),
{
    let e = pct_encode_bytes(bytes, false);
    lemma_pct_encode_bytes_plain(bytes);
    assert forall|i: int| 0 <= i && i + 2 < e.len() && e[i] == 0x25 implies !is_continuation(
        #[trigger] e[i + 1],
    ) && (i + 3 == e.len() || !is_continuation(e[i + 3])) by {
        assert(e[i + 1] < 0x80);
        if i + 3 < e.len() {
            assert(e[i + 3] < 0x80);
        }
    }
}

proof fn lemma_encode_utf8_concat(a: Seq<char>, b: Seq<char>)
    ensures
        encode_utf8(a + b) == encode_utf8(a) + encode_utf8(b),
    decreases a.len(),
{
    if a.len() == 0 {
        assert(a + b =~= b);
        assert(encode_utf8(a) + encode_utf8(b) =~= encode_utf8(b));
    } else {
        lemma_encode_utf8_concat(a.drop_first(), b);
        assert((a + b).drop_first() =~= a.drop_first() + b);
        assert((a + b)[0] == a[0]);
        assert(encode_utf8(a + b) =~= encode_utf8(a) + encode_utf8(b));
    }
}

proof fn lemma_ascii_bytes(s: Seq<char>, b: Seq<u8>)
    requires
        s.len() == b.len(),
        forall|i: int| 0 <= i < s.len() ==> '\0' <= #[trigger] s[i] <= '\u{7f}' && s[i] as u8 == b[i],
    ensures
        encode_utf8(s) == b,
{
    assert(is_ascii_chars(s));
    is_ascii_chars_encode_utf8(s);
    assert(encode_utf8(s) =~= b);
}

proof fn lemma_next_sep_at(s: Seq<u8>, from: int, sep: u8, k: int)
    requires
        0 <= from <= k <= s.len(),
        k < s.len() ==> s[k] == sep,
        forall|j: int| from <= j < k ==> #[trigger] s[j] != sep,
    ensures
        next_sep(s, from, sep) == k,
{
    lemma_next_sep(s, from, sep);
    let n = next_sep(s, from, sep);
    if n < k {
        assert(s[n] == sep);
    }
    if n > k {
        assert(s[k] != sep);
    }
}

/// The query of the host URL, sent on the host or the client path, decodes
/// cleanly and registers the path's role with exactly that room and token
/// when neither is blank, and registers nothing otherwise.
proof fn lemma_query_registers(path: Seq<char>, room: Seq<char>, token: Seq<char>)
    requires
        path == "/host"@ || path == "/client"@,
    ensures
        uri_decodable(path, Some(encode_utf8(host_query(encode_utf8(room), encode_utf8(token))))),
        uri_role(path, encode_utf8(host_query(encode_utf8(room), encode_utf8(token)))) is Some,
        uri_registration(path, Some(encode_utf8(host_query(encode_utf8(room), encode_utf8(token)))))
            == if trim(room).len() > 0 && trim(token).len() > 0 {
            Some(
                (
                    uri_role(path, encode_utf8(host_query(encode_utf8(room), encode_utf8(token))))->0,
                    room,
                    token,
                ),
            )
        } else {
            None
        },
{
    let rb = encode_utf8(room);
    let tb = encode_utf8(token);
    let a = pct_encode_bytes(rb, false);
    let t = pct_encode_bytes(tb, false);
    lemma_pct_encode_utf8(rb, false);
    lemma_pct_encode_utf8(tb, false);
    lemma_pct_encode_bytes_plain(rb);
    lemma_pct_encode_bytes_plain(tb);
    reveal_strlit("room=");
    reveal_strlit("&token=");
    reveal_strlit("room");
    reveal_strlit("token");
    reveal_strlit("/host");
    reveal_strlit("/ws");
    let r = seq![0x72u8, 0x6f, 0x6f, 0x6d, 0x3d];
    let k = seq![0x26u8, 0x74, 0x6f, 0x6b, 0x65, 0x6e, 0x3d];
    let room_key = seq![0x72u8, 0x6f, 0x6f, 0x6d];
    let token_key = seq![0x74u8, 0x6f, 0x6b, 0x65, 0x6e];
    lemma_ascii_bytes("room="@, r);
    lemma_ascii_bytes("&token="@, k);
    lemma_ascii_bytes("room"@, room_key);
    lemma_ascii_bytes("token"@, token_key);
    let ea = pct_encode(rb, false);
    let et = pct_encode(tb, false);
    lemma_encode_utf8_concat("room="@, ea);
    lemma_encode_utf8_concat("room="@ + ea, "&token="@);
    lemma_encode_utf8_concat("room="@ + ea + "&token="@, et);
    let q = r + a + k + t;
    assert(encode_utf8(host_query(rb, tb)) == q);
    // The room pair ends at the first `&`.
    let end: int = (r.len() + a.len()) as int;
    assert forall|j: int| 0 <= j < end implies #[trigger] q[j] != 0x26u8 by {
        if j >= r.len() {
            assert(q[j] == a[j - r.len()]);
        }
    }
    assert(q[end] == 0x26u8);
    lemma_next_sep_at(q, 0, 0x26, end);
    let pair = q.subrange(0, end);
    assert(pair =~= r + a);
    assert forall|j: int| 0 <= j < 4 implies #[trigger] pair[j] != 0x3du8 by {}
    lemma_next_sep_at(pair, 0, 0x3d, 4);
    assert(pair.take(4) =~= room_key);
    assert(pair.skip(5) =~= a);
    assert(pair_value(pair, room_key) == Some(a));
    assert(query_raw(q, room_key) == Some(a));
    // The token pair is the rest, after that `&`.
    assert(pair.take(4) != token_key);
    assert(pair_value(pair, token_key) is None);
    let start: int = end + 1;
    assert forall|j: int| start <= j < q.len() implies #[trigger] q[j] != 0x26u8 by {
        if j >= end + k.len() {
            assert(q[j] == t[j - end - k.len()]);
        } else {
            assert(q[j] == k[j - end]);
        }
    }
    lemma_next_sep_at(q, start, 0x26, q.len() as int);
    let pair2 = q.subrange(start, q.len() as int);
    assert(pair2 =~= k.skip(1) + t);
    assert forall|j: int| 0 <= j < 5 implies #[trigger] pair2[j] != 0x3du8 by {}
    lemma_next_sep_at(pair2, 0, 0x3d, 5);
    assert(pair2.take(5) =~= token_key);
    assert(pair2.skip(6) =~= t);
    assert(pair_value(pair2, token_key) == Some(t));
    assert(query_raw_from(q, token_key, start) == Some(t));
    assert(query_raw(q, token_key) == Some(t));
    // Both values decode to the configured text.
    lemma_pct_decode_encoded(rb);
    lemma_pct_decode_encoded(tb);
    encode_utf8_valid_utf8(room);
    encode_utf8_decode_utf8(room);
    encode_utf8_valid_utf8(token);
    encode_utf8_decode_utf8(token);
    assert(decoded_text(a) == room);
    assert(decoded_text(t) == token);
    lemma_pct_encoded_decodable(rb);
    lemma_pct_encoded_decodable(tb);
    reveal_strlit("/client");
    assert(path != "/ws"@) by {
        assert("/host"@.len() == 5 && "/client"@.len() == 7 && "/ws"@.len() == 3);
    }
    assert(uri_role(path, q) is Some);
}

/// The relay reads back what a host puts in its URL: sent on the host path,
/// the query of the host URL decodes cleanly and registers a host with
/// exactly the configured room and token when neither is blank, and
/// registers nothing otherwise.
pub proof fn law_host_query_registers_host(room: Seq<char>, token: Seq<char>)
    ensures
        uri_decodable(
            "/host"@,
            Some(encode_utf8(host_query(encode_utf8(room), encode_utf8(token)))),
        ),
        uri_registration(
            "/host"@,
            Some(encode_utf8(host_query(encode_utf8(room), encode_utf8(token)))),
        ) == if trim(room).len() > 0 && trim(token).len() > 0 {
            Some((Role::Host, room, token))
        } else {
            None
        },
{
    lemma_query_registers("/host"@, room, token);
    law_path_roles(encode_utf8(host_query(encode_utf8(room), encode_utf8(token))));
}

/// A phone that connects on the client path with a room and a token that
/// are not blank takes the client side of that room, with exactly that room
/// and token; with a blank one it registers nothing.
pub proof fn law_client_query_registers_client(room: Seq<char>, token: Seq<char>)
    ensures
        uri_decodable(
            "/client"@,
            Some(encode_utf8(host_query(encode_utf8(room), encode_utf8(token)))),
        ),
        uri_registration(
            "/client"@,
            Some(encode_utf8(host_query(encode_utf8(room), encode_utf8(token)))),
        ) == if trim(room).len() > 0 && trim(token).len() > 0 {
            Some((Role::Client, room, token))
        } else {
            None
        },
{
    lemma_query_registers("/client"@, room, token);
    law_path_roles(encode_utf8(host_query(encode_utf8(room), encode_utf8(token))));
}

/// Whatever the query, the host path takes the host side and the client
/// path the client side.
pub proof fn law_path_roles(query: Seq<u8>)
    ensures
        uri_role("/host"@, query) == Some(Role::Host),
        uri_role("/client"@, query) == Some(Role::Client),
{
    reveal_strlit("/host");
    reveal_strlit("/client");
    assert("/host"@.len() == 5 && "/client"@.len() == 7);
}

} // verus!
