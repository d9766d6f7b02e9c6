//! A plain model of the JSON values that packets carry, and the lookups the
//! protocol makes in them. Numbers keep their JSON text, so no value is ever
//! rounded on its way through the library.
use vstd::prelude::*;
use crate::text::text_eq;

verus! {

/// A JSON value. Object members keep their order; a lookup takes the first
/// member with the key.
#[derive(Debug, PartialEq)]
pub enum JsonValue {
    Null,
    Bool(bool),
    /// A number, as its JSON text.
    Number(String),
    String(String),
    Array(Vec<JsonValue>),
    Object(Vec<(String, JsonValue)>),
}

/// The position of the first member named `key`, searching from `i`.
pub open spec fn key_index_from(fields: Seq<(String, JsonValue)>, key: Seq<char>, i: int) -> Option<
    int,
>
    decreases fields.len() - i,
{
    if i < 0 || i >= fields.len() {
        None
    } else if fields[i].0@ == key {
        Some(i)
    } else {
        key_index_from(fields, key, i + 1)
    }
}

/// The position of the first member named `key`.
pub open spec fn key_index(fields: Seq<(String, JsonValue)>, key: Seq<char>) -> Option<int> {
    key_index_from(fields, key, 0)
}

/// The member named `key` of an object; `None` for other values
/// (`Value::get` with a string key).
pub open spec fn get_field(v: JsonValue, key: Seq<char>) -> Option<JsonValue> {
    match v {
        JsonValue::Object(fs) => match key_index(fs@, key) {
            Some(k) => Some(fs@[k].1),
            None => None,
        },
        _ => None,
    }
}

/// `v` is the string `s`.
pub open spec fn is_string(v: JsonValue, s: Seq<char>) -> bool {
    match v {
        JsonValue::String(t) => t@ == s,
        _ => false,
    }
}

/// `v` is the number written `text`.
pub open spec fn is_number(v: JsonValue, text: Seq<char>) -> bool {
    match v {
        JsonValue::Number(t) => t@ == text,
        _ => false,
    }
}

/// The position of the first member named `key`.
pub fn find_key(fields: &Vec<(String, JsonValue)>, key: &str) -> (r: Option<usize>)
    ensures
        r matches Some(k) ==> key_index(fields@, key@) == Some(k as int) && k < fields@.len(),
        r is None ==> key_index(fields@, key@) is None,
{
    let mut i: usize = 0;
    while i < fields.len()
        invariant
            i <= fields@.len(),
            key_index(fields@, key@) == key_index_from(fields@, key@, i as int),
        decreases fields@.len() - i,
    {
        if text_eq(fields[i].0.as_str(), key) {
            return Some(i);
        }
        i = i + 1;
    }
    None
}

impl JsonValue {
    /// The member named `key`, when this is an object that has one.
    pub fn get(&self, key: &str) -> (r: Option<&JsonValue>)
        ensures
            r matches Some(v) ==> get_field(*self, key@) == Some(*v),
            r is None ==> get_field(*self, key@) is None,
    {
        match self {
            JsonValue::Object(fs) => match find_key(fs, key) {
                Some(k) => Some(&fs[k].1),
                None => None,
            },
            _ => None,
        }
    }

    /// This value is the string `s`.
    pub fn is_str(&self, s: &str) -> (r: bool)
        ensures
            r == is_string(*self, s@),
    {
        match self {
            JsonValue::String(t) => text_eq(t.as_str(), s),
            _ => false,
        }
    }
}

/// A lower-case hexadecimal digit.
pub open spec fn hex_digit(d: nat) -> char {
    if d < 10 {
        ((d + 48) as u32) as char
    } else {
        ((d + 87) as u32) as char
    }
}

/// How `serde_json` writes the character `c` inside a string literal: `"`
/// and `\` behind a backslash, the control characters below U+0020 as
/// `\b`, `\t`, `\n`, `\f`, `\r` or `\u00xx`, every other character as itself.
pub open spec fn json_escape_char(c: char) -> Seq<char> {
    let v = c as u32;
    if c == '"' || c == '\\' {
        seq!['\\', c]
    } else if v == 8 {
        seq!['\\', 'b']
    } else if v == 9 {
        seq!['\\', 't']
    } else if v == 10 {
        seq!['\\', 'n']
    } else if v == 12 {
        seq!['\\', 'f']
    } else if v == 13 {
        seq!['\\', 'r']
    } else if v < 0x20 {
        seq!['\\', 'u', '0', '0', hex_digit((v / 16) as nat), hex_digit((v % 16) as nat)]
    } else {
        seq![c]
    }
}

/// The characters of `s`, each escaped as `serde_json` does.
pub open spec fn json_escape(s: Seq<char>) -> Seq<char>
    decreases s.len(),
{
    if s.len() == 0 {
        Seq::empty()
    } else {
        json_escape(s.drop_last()) + json_escape_char(s.last())
    }
}

/// A JSON string literal for `s`, quoted and escaped as `serde_json` writes
/// it.
pub open spec fn json_string_literal(s: Seq<char>) -> Seq<char> {
    seq!['"'] + json_escape(s) + seq!['"']
}

/// `serde_json`'s text for the JSON string `s` (the `Display` of
/// `Value::String`, which writes the string with its escape table between
/// double quotes). Trusted: the text is `json_string_literal(s)`.
#[verifier::external_body]
pub(crate) fn quote_json(s: &str) -> (r: String)
    ensures
        r@ == json_string_literal(s@),
{
    serde_json::Value::String(s.to_string()).to_string()
}

} // verus!
