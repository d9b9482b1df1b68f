//! JSON, as far as messages are written and read in it.

use vstd::prelude::*;

verus! {

/// A JSON value, carried through as it is.
#[verifier::external_type_specification]
#[verifier::external_body]
pub struct ExValue(serde_json::Value);

/// The error of the JSON library, carried through as it is.
#[verifier::external_type_specification]
#[verifier::external_body]
pub struct ExJsonError(serde_json::Error);

/// The members of a JSON object whose values are strings. A value that is not an
/// object has none.
pub uninterp spec fn string_members(value: serde_json::Value) -> Map<Seq<char>, Seq<char>>;

/// [`serde_json::Value::get`] finds the member of an object by its key, and gives
/// nothing for a value that is not an object; [`serde_json::Value::as_str`] gives
/// the text of a string, and nothing for any other value.
#[verifier::external_body]
pub(crate) fn string_member(value: &serde_json::Value, key: &str) -> (r: Option<String>)
    ensures
        match r {
            Some(text) => {
                &&& string_members(*value).contains_key(key@)
                &&& string_members(*value)[key@] == text@
            },
            None => !string_members(*value).contains_key(key@),
        },
{
    value.get(key).and_then(serde_json::Value::as_str).map(str::to_owned)
}

/// A hexadecimal digit.
pub open spec fn hex_digit(d: int) -> char {
    if d < 10 {
        (48 + d) as char
    } else {
        (87 + d) as char
    }
}

/// A character as it stands in a JSON string: quotes, backslashes and control
/// characters are escaped.
pub open spec fn json_escaped(c: char) -> Seq<char> {
    let u = c as u32;
    if c == '"' {
        seq!['\\', '"']
    } else if c == '\\' {
        seq!['\\', '\\']
    } else if u == 0x08 {
        seq!['\\', 'b']
    } else if u == 0x09 {
        seq!['\\', 't']
    } else if u == 0x0a {
        seq!['\\', 'n']
    } else if u == 0x0c {
        seq!['\\', 'f']
    } else if u == 0x0d {
        seq!['\\', 'r']
    } else if u < 0x20 {
        seq!['\\', 'u', '0', '0', hex_digit(u as int / 16), hex_digit(u as int % 16)]
    } else {
        seq![c]
    }
}

/// Characters as they stand in a JSON string, one after the other.
pub open spec fn json_escapes(text: Seq<char>) -> Seq<char>
    decreases text.len(),
{
    if text.len() == 0 {
        Seq::empty()
    } else {
        json_escapes(text.drop_last()) + json_escaped(text.last())
    }
}

/// A text as a JSON string.
pub open spec fn json_string(text: Seq<char>) -> Seq<char> {
    seq!['"'] + json_escapes(text) + seq!['"']
}

/// [`serde_json::to_string`] writes a text as a JSON string. On a text it always
/// succeeds.
#[verifier::external_body]
pub(crate) fn to_json_string(text: &str) -> (r: Result<String, serde_json::Error>)
    ensures
        r is Ok,
        r->Ok_0@ == json_string(text@),
{
    serde_json::to_string(text)
}

} // verus!
