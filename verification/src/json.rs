//! JSON as the library reads it: a value tree of its own, filled by
//! `serde_json`'s parser, and the lookups the editors' replies and the score
//! feed need.

use vstd::prelude::*;

use crate::text::{chars_of, seq_eq};
use serde_json::Value;

verus! {

#[verifier::external_type_specification]
#[verifier::external_body]
pub struct ExJsonValue(Value);

/// A JSON value. Objects keep their members as (key, value) pairs with no key
/// twice; numbers keep their value when it is a whole number that fits in a
/// `u64`, which is the only kind the library reads.
pub enum JsonValue {
    Null,
    Bool(bool),
    Number(Option<u64>),
    Str(String),
    Array(Vec<JsonValue>),
    Object(Vec<(String, JsonValue)>),
}

// ------------------------------------------------------------------ names

/// What `serde_json::from_str::<Value>` makes of a whole text (white space
/// around the value allowed, anything else after it refused).
pub uninterp spec fn spec_parse_json(text: Seq<char>) -> Option<JsonValue>;

/// The value that `serde_json`'s stream deserializer reads from the start of a
/// text, ignoring whatever follows it.
pub uninterp spec fn spec_json_prefix(text: Seq<char>) -> Option<JsonValue>;

/// A digit of lower-case hexadecimal.
pub open spec fn hex_digit(n: nat) -> char {
    if n < 10 {
        ((n + 48) as u32) as char
    } else {
        ((n + 87) as u32) as char
    }
}

/// How `serde_json` writes a character inside a string literal: `"` and
/// `\` behind a backslash, the usual short escapes for backspace, tab, line
/// feed, form feed and carriage return, other control characters as
/// `\u00xx` in lower-case hex, everything else as it is.
pub open spec fn json_escape(c: char) -> Seq<char> {
    let n = c as u32;
    if c == '"' {
        seq!['\\', '"']
    } else if c == '\\' {
        seq!['\\', '\\']
    } else if n == 0x08 {
        seq!['\\', 'b']
    } else if n == 0x09 {
        seq!['\\', 't']
    } else if n == 0x0A {
        seq!['\\', 'n']
    } else if n == 0x0C {
        seq!['\\', 'f']
    } else if n == 0x0D {
        seq!['\\', 'r']
    } else if n < 0x20 {
        seq!['\\', 'u', '0', '0', hex_digit((n / 16) as nat), hex_digit((n % 16) as nat)]
    } else {
        seq![c]
    }
}

pub open spec fn json_escaped(s: Seq<char>) -> Seq<char>
    decreases s.len(),
{
    if s.len() == 0 {
        Seq::empty()
    } else {
        json_escaped(s.drop_last()) + json_escape(s.last())
    }
}

/// `serde_json::to_string` of a string: the string as a quoted JSON literal.
pub open spec fn spec_json_quote(s: Seq<char>) -> Seq<char> {
    seq!['"'] + json_escaped(s) + seq!['"']
}

// -------------------------------------------------------------- wrappers

/// Turns `serde_json`'s value into the library's, one node for one node.
#[verifier::external_body]
fn from_serde(v: &Value) -> JsonValue {
    match v {
        Value::Null => JsonValue::Null,
        Value::Bool(b) => JsonValue::Bool(*b),
        Value::Number(n) => JsonValue::Number(n.as_u64()),
        Value::String(s) => JsonValue::Str(s.clone()),
        Value::Array(a) => JsonValue::Array(a.iter().map(from_serde).collect()),
        Value::Object(o) => JsonValue::Object(o.iter().map(from_serde_member).collect()),
    }
}

/// One member of a `serde_json` object, as a (key, value) pair of the library.
#[verifier::external_body]
fn from_serde_member(member: (&String, &Value)) -> (String, JsonValue) {
    (member.0.clone(), from_serde(member.1))
}

/// `serde_json::from_str::<serde_json::Value>`: the whole text as one JSON
/// value, or `None` when it is not JSON. Claims only that the result is the
/// one that `spec_parse_json` names.
#[verifier::external_body]
pub(crate) fn parse_json(text: &str) -> (r: Option<JsonValue>)
    ensures
        r == spec_parse_json(text@),
{
    match serde_json::from_str::<serde_json::Value>(text) {
        Ok(v) => Some(from_serde(&v)),
        Err(_) => None,
    }
}

/// `serde_json::Deserializer::from_str(text).into_iter::<Value>().next()`:
/// the JSON value at the very start of the text, whatever comes after it.
/// Claims only that the result is the one that `spec_json_prefix` names.
#[verifier::external_body]
pub(crate) fn json_prefix(text: &str) -> (r: Option<JsonValue>)
    ensures
        r == spec_json_prefix(text@),
{
    match serde_json::Deserializer::from_str(text).into_iter::<serde_json::Value>().next() {
        Some(Ok(v)) => Some(from_serde(&v)),
        _ => None,
    }
}

/// `serde_json::to_string` of a string slice: its quoted, escaped JSON form
/// (see `json_escape`), which cannot fail for a string.
#[verifier::external_body]
pub(crate) fn json_quote(s: &str) -> (r: String)
    ensures
        r@ == spec_json_quote(s@),
{
    serde_json::to_string(s).unwrap_or_default()
}

// ----------------------------------------------------------------- lookups

/// The value of the first member named `key` among `pairs`.
pub open spec fn lookup(pairs: Seq<(String, JsonValue)>, key: Seq<char>) -> Option<JsonValue>
    decreases pairs.len(),
{
    if pairs.len() == 0 {
        None
    } else if pairs[0].0@ == key {
        Some(pairs[0].1)
    } else {
        lookup(pairs.drop_first(), key)
    }
}

/// `Value::get` with a key: the member of an object, `None` for anything else.
pub open spec fn json_get(v: JsonValue, key: Seq<char>) -> Option<JsonValue> {
    match v {
        JsonValue::Object(pairs) => lookup(pairs@, key),
        _ => None,
    }
}

/// `get` through an optional value.
pub open spec fn get_opt(v: Option<JsonValue>, key: Seq<char>) -> Option<JsonValue> {
    match v {
        Some(x) => json_get(x, key),
        None => None,
    }
}

/// `Value::as_str`: the text of a string value.
pub open spec fn str_of(v: Option<JsonValue>) -> Option<Seq<char>> {
    match v {
        Some(JsonValue::Str(s)) => Some(s@),
        _ => None,
    }
}

/// `Value::as_array`: the items of an array value.
pub open spec fn array_of(v: Option<JsonValue>) -> Option<Seq<JsonValue>> {
    match v {
        Some(JsonValue::Array(a)) => Some(a@),
        _ => None,
    }
}

/// `Value::as_u64`.
pub open spec fn u64_of(v: Option<JsonValue>) -> Option<u64> {
    match v {
        Some(JsonValue::Number(n)) => n,
        _ => None,
    }
}

/// `Value::as_bool`.
pub open spec fn bool_of(v: Option<JsonValue>) -> Option<bool> {
    match v {
        Some(JsonValue::Bool(b)) => Some(b),
        _ => None,
    }
}

pub open spec fn is_object(v: JsonValue) -> bool {
    v is Object
}

impl JsonValue {
    /// The member named `key`, when this is an object that has one.
    pub fn get(&self, key: &str) -> (r: Option<&JsonValue>)
        ensures
            r matches Some(x) ==> json_get(*self, key@) == Some(*x),
            r is None ==> json_get(*self, key@) is None,
    {
        match self {
            JsonValue::Object(pairs) => {
                let k = chars_of(key);
                let mut i: usize = 0;
                assert(pairs@.skip(0) =~= pairs@);
                while i < pairs.len()
                    invariant
                        i <= pairs@.len(),
                        k@ == key@,
                        json_get(*self, key@) == lookup(pairs@, key@),
                        lookup(pairs@, key@) == lookup(pairs@.skip(i as int), key@),
                    decreases pairs@.len() - i,
                {
                    let name = chars_of(&pairs[i].0);
                    assert(pairs@.skip(i as int)[0] == pairs@[i as int]);
                    if seq_eq(name.as_slice(), k.as_slice()) {
                        assert(lookup(pairs@.skip(i as int), key@) == Some(pairs@[i as int].1));
                        return Some(&pairs[i].1);
                    }
                    assert(pairs@.skip(i as int).drop_first() =~= pairs@.skip(i + 1));
                    i = i + 1;
                }
                None
            },
            _ => None,
        }
    }

    /// The text, when this is a string.
    pub fn as_str(&self) -> (r: Option<&String>)
        ensures
            r matches Some(s) ==> str_of(Some(*self)) == Some(s@),
            r is None ==> str_of(Some(*self)) is None,
    {
        match self {
            JsonValue::Str(s) => Some(s),
            _ => None,
        }
    }

    /// The items, when this is an array.
    pub fn as_array(&self) -> (r: Option<&Vec<JsonValue>>)
        ensures
            r matches Some(a) ==> array_of(Some(*self)) == Some(a@),
            r is None ==> array_of(Some(*self)) is None,
    {
        match self {
            JsonValue::Array(a) => Some(a),
            _ => None,
        }
    }

    /// The number, when this is a whole number that fits in a `u64`.
    pub fn as_u64(&self) -> (r: Option<u64>)
        ensures
            r == u64_of(Some(*self)),
    {
        match self {
            JsonValue::Number(n) => *n,
            _ => None,
        }
    }

    /// The flag, when this is `true` or `false`.
    pub fn as_bool(&self) -> (r: Option<bool>)
        ensures
            r == bool_of(Some(*self)),
    {
        match self {
            JsonValue::Bool(b) => Some(*b),
            _ => None,
        }
    }

    pub fn is_object(&self) -> (r: bool)
        ensures
            r == is_object(*self),
    {
        match self {
            JsonValue::Object(_) => true,
            _ => false,
        }
    }

    pub fn is_array(&self) -> (r: bool)
        ensures
            r == (*self is Array),
    {
        match self {
            JsonValue::Array(_) => true,
            _ => false,
        }
    }
}

/// The value an optional reference points to.
pub open spec fn deref_opt(v: Option<&JsonValue>) -> Option<JsonValue> {
    match v {
        Some(x) => Some(*x),
        None => None,
    }
}

/// `get` through an optional reference.
pub fn get_in<'a>(v: Option<&'a JsonValue>, key: &str) -> (r: Option<&'a JsonValue>)
    ensures
        r matches Some(x) ==> get_opt(deref_opt(v), key@) == Some(*x),
        r is None ==> get_opt(deref_opt(v), key@) is None,
{
    match v {
        Some(x) => x.get(key),
        None => None,
    }
}

} // verus!
