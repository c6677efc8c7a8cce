//! A plain model of JSON documents, read by the registry and protocol logic.
//!
//! Numbers keep the text that a JSON serializer writes for them, so that the
//! logic can both print them and read unsigned integers from them.
use vstd::prelude::*;
use crate::text::{all_digits, chars_of, decimal, is_ascii_digit, all_digits_vec, parse_u64, parse_u64_vec, trim, trim_str, vec_eq, vec_eq_str};

verus! {

/// A JSON value. Object members keep their order; a key is looked up at its
/// first occurrence.
#[derive(Debug)]
pub enum JsonValue {
    Null,
    Bool(bool),
    Number(String),
    Str(String),
    Array(Vec<JsonValue>),
    Object(Vec<(String, JsonValue)>),
}

/// The value stored under `key` in the members `m`, at the first member with that key.
pub open spec fn member(m: Seq<(String, JsonValue)>, key: Seq<char>) -> Option<JsonValue>
    decreases m.len(),
{
    if m.len() == 0 {
        None
    } else if m[0].0@ == key {
        Some(m[0].1)
    } else {
        member(m.drop_first(), key)
    }
}

/// `Value::get` with a string key: the member of an object, `None` otherwise.
pub open spec fn get(v: JsonValue, key: Seq<char>) -> Option<JsonValue> {
    match v {
        JsonValue::Object(m) => member(m@, key),
        _ => None,
    }
}

/// `Option<&Value>::and_then(|v| v.get(key))`.
pub open spec fn get_opt(v: Option<JsonValue>, key: Seq<char>) -> Option<JsonValue> {
    match v {
        Some(v) => get(v, key),
        None => None,
    }
}

/// `Value::as_str`.
pub open spec fn as_str(v: Option<JsonValue>) -> Option<Seq<char>> {
    match v {
        Some(JsonValue::Str(s)) => Some(s@),
        _ => None,
    }
}

/// The text of a value as the registry reads it: a trimmed string, the
/// printed number, or the empty string for anything else.
pub open spec fn string_value(v: Option<JsonValue>) -> Seq<char> {
    match v {
        Some(JsonValue::Str(s)) => trim(s@),
        Some(JsonValue::Number(n)) => n@,
        _ => Seq::empty(),
    }
}

/// `Value::as_u64`: a number whose text is a plain decimal that fits in `u64`.
pub open spec fn as_u64(v: Option<JsonValue>) -> Option<u64> {
    match v {
        Some(JsonValue::Number(n)) => if all_digits(n@) && n@.len() > 0 {
            parse_u64(n@)
        } else {
            None
        },
        _ => None,
    }
}

/// `Value::as_bool`.
pub open spec fn as_bool(v: Option<JsonValue>) -> Option<bool> {
    match v {
        Some(JsonValue::Bool(b)) => Some(b),
        _ => None,
    }
}

/// The elements of an array value.
pub open spec fn as_array(v: Option<JsonValue>) -> Option<Seq<JsonValue>> {
    match v {
        Some(JsonValue::Array(a)) => Some(a@),
        _ => None,
    }
}

pub open spec fn is_object(v: JsonValue) -> bool {
    v is Object
}

/// The member of `m` stored under `key` (first occurrence).
pub fn member_of<'a>(m: &'a Vec<(String, JsonValue)>, key: &str) -> (r: Option<&'a JsonValue>)
    ensures
        match r {
            Some(v) => member(m@, key@) == Some(*v),
            None => member(m@, key@) is None,
        },
{
    let k = chars_of(key);
    let mut i: usize = 0;
    proof {
        assert(m@.skip(0) == m@);
    }
    while i < m.len()
        invariant
            i <= m.len(),
            k@ == key@,
            member(m@, key@) == member(m@.skip(i as int), key@),
        decreases m.len() - i,
    {
        let name = chars_of(m[i].0.as_str());
        proof {
            assert(m@.skip(i as int)[0] == m@[i as int]);
            assert(m@.skip(i as int).drop_first() == m@.skip(i + 1));
        }
        if vec_eq(&name, &k) {
            return Some(&m[i].1);
        }
        i = i + 1;
    }
    None
}

impl JsonValue {
    /// `Value::get` with a string key.
    pub fn get<'a>(&'a self, key: &str) -> (r: Option<&'a JsonValue>)
        ensures
            match r {
                Some(v) => get(*self, key@) == Some(*v),
                None => get(*self, key@) is None,
            },
    {
        match self {
            JsonValue::Object(m) => member_of(m, key),
            _ => None,
        }
    }

    /// `Value::as_str`.
    pub fn as_str(&self) -> (r: Option<&str>)
        ensures
            match r {
                Some(s) => as_str(Some(*self)) == Some(s@),
                None => as_str(Some(*self)) is None,
            },
    {
        match self {
            JsonValue::Str(s) => Some(s.as_str()),
            _ => None,
        }
    }

    /// `Value::as_array`.
    pub fn as_array(&self) -> (r: Option<&Vec<JsonValue>>)
        ensures
            match r {
                Some(a) => as_array(Some(*self)) == Some(a@),
                None => as_array(Some(*self)) is None,
            },
    {
        match self {
            JsonValue::Array(a) => Some(a),
            _ => None,
        }
    }

    /// `Value::as_bool`.
    pub fn as_bool(&self) -> (r: Option<bool>)
        ensures
            r == as_bool(Some(*self)),
    {
        match self {
            JsonValue::Bool(b) => Some(*b),
            _ => None,
        }
    }

    /// `Value::as_u64`.
    pub fn as_u64(&self) -> (r: Option<u64>)
        ensures
            r == as_u64(Some(*self)),
    {
        match self {
            JsonValue::Number(n) => {
                let v = chars_of(n.as_str());
                if v.len() == 0 {
                    return None;
                }
                if !all_digits_vec(&v) {
                    return None;
                }
                parse_u64_vec(&v)
            },
            _ => None,
        }
    }

    /// `Value::is_object`.
    pub fn is_object(&self) -> (r: bool)
        ensures
            r == is_object(*self),
    {
        match self {
            JsonValue::Object(_) => true,
            _ => false,
        }
    }
}

/// Reads a value the way the registry does (see [`string_value`]).
pub fn string_value_of(v: Option<&JsonValue>) -> (r: String)
    ensures
        r@ == string_value(match v {
            Some(x) => Some(*x),
            None => None,
        }),
{
    match v {
        Some(JsonValue::Str(s)) => trim_str(s.as_str()),
        Some(JsonValue::Number(n)) => n.clone(),
        _ => String::new(),
    }
}

/// Takes the first member named `key` out of an object.
pub fn take_member(members: Vec<(String, JsonValue)>, key: &str) -> (r: Option<JsonValue>)
    ensures
        r == crate::json::member(members@, key@),
{
    let mut list = members;
    let mut i: usize = 0;
    proof {
        assert(list@.skip(0) =~= list@);
    }
    while i < list.len()
        invariant
            i <= list@.len(),
            list@ == members@,
            crate::json::member(list@, key@) == crate::json::member(list@.skip(i as int), key@),
        decreases list.len() - i,
    {
        if vec_eq_str(&chars_of(list[i].0.as_str()), key) {
            proof {
                assert(list@.skip(i as int)[0] == list@[i as int]);
            }
            let entry = list.remove(i);
            return Some(entry.1);
        }
        proof {
            assert(list@.skip(i as int).drop_first() =~= list@.skip(i + 1));
        }
        i = i + 1;
    }
    proof {
        assert(list@.skip(i as int) =~= Seq::<(String, JsonValue)>::empty());
    }
    None
}

} // verus!
