//! What JSON text stands for, as far as objects of strings go.

use crate::matrix::json::{hex_digit, json_escaped, json_escapes, json_string};
use vstd::prelude::*;

verus! {

/// The value of a hexadecimal digit.
pub open spec fn hex_value(c: char) -> Option<int> {
    let u = c as int;
    if 48 <= u <= 57 {
        Some(u - 48)
    } else if 65 <= u <= 70 {
        Some(u - 55)
    } else if 97 <= u <= 102 {
        Some(u - 87)
    } else {
        None
    }
}

/// The number in a `\u` escape that stands at the front of the text.
pub open spec fn unit_read(json: Seq<char>) -> Option<int> {
    if json.len() < 6 || json[0] != '\\' || json[1] != 'u' {
        None
    } else {
        match (hex_value(json[2]), hex_value(json[3]), hex_value(json[4]), hex_value(json[5])) {
            (Some(a), Some(b), Some(c), Some(d)) => Some(4096 * a + 256 * b + 16 * c + d),
            _ => None,
        }
    }
}

/// The character for which the front of the inside of a JSON string stands, and
/// what comes after it.
pub open spec fn char_read(json: Seq<char>) -> Option<(char, Seq<char>)> {
    if json.len() == 0 || json[0] == '"' || (json[0] as u32) < 0x20 {
        None
    } else if json[0] != '\\' {
        Some((json[0], json.skip(1)))
    } else if json.len() < 2 {
        None
    } else if json[1] == '"' || json[1] == '\\' || json[1] == '/' {
        Some((json[1], json.skip(2)))
    } else if json[1] == 'b' {
        Some((8u8 as char, json.skip(2)))
    } else if json[1] == 't' {
        Some((9u8 as char, json.skip(2)))
    } else if json[1] == 'n' {
        Some((10u8 as char, json.skip(2)))
    } else if json[1] == 'f' {
        Some((12u8 as char, json.skip(2)))
    } else if json[1] == 'r' {
        Some((13u8 as char, json.skip(2)))
    } else {
        match unit_read(json) {
            None => None,
            Some(unit) => if unit < 0xd800 || unit >= 0xe000 {
                Some((unit as char, json.skip(6)))
            } else {
                // Two escapes stand for one character beyond the first plane.
                match unit_read(json.skip(6)) {
                    Some(low) => if unit < 0xdc00 && 0xdc00 <= low < 0xe000 {
                        Some(
                            (
                                (0x10000 + 1024 * (unit - 0xd800) + (low - 0xdc00)) as char,
                                json.skip(12),
                            ),
                        )
                    } else {
                        None
                    },
                    None => None,
                }
            },
        }
    }
}

/// The text for which the inside of a JSON string stands, and what comes after the
/// closing quote.
pub open spec fn text_read(json: Seq<char>) -> Option<(Seq<char>, Seq<char>)>
    decreases json.len(),
{
    if json.len() > 0 && json[0] == '"' {
        Some((Seq::empty(), json.skip(1)))
    } else {
        match char_read(json) {
            Some((c, rest)) => match text_read(rest) {
                Some((text, after)) => Some((seq![c] + text, after)),
                None => None,
            },
            None => None,
        }
    }
}

/// The text for which a JSON string at the front stands, and what comes after it.
pub open spec fn string_read(json: Seq<char>) -> Option<(Seq<char>, Seq<char>)> {
    if json.len() > 0 && json[0] == '"' {
        text_read(json.skip(1))
    } else {
        None
    }
}

/// The text without the blanks at its front that JSON allows between its parts.
pub open spec fn blanks_skipped(json: Seq<char>) -> Seq<char>
    decreases json.len(),
{
    if json.len() > 0 && (json[0] == ' ' || json[0] == '\t' || json[0] == '\n' || json[0]
        == '\r') {
        blanks_skipped(json.skip(1))
    } else {
        json
    }
}

/// What comes after a sign, with blanks in front of it.
pub open spec fn after_sign(json: Seq<char>, sign: char) -> Option<Seq<char>> {
    let json = blanks_skipped(json);
    if json.len() > 0 && json[0] == sign {
        Some(json.skip(1))
    } else {
        None
    }
}

/// A key and a string that belong together, and what comes after them.
pub open spec fn member_read(json: Seq<char>) -> Option<(Seq<char>, Seq<char>, Seq<char>)> {
    match string_read(blanks_skipped(json)) {
        None => None,
        Some((key, rest)) => match after_sign(rest, ':') {
            None => None,
            Some(rest) => match string_read(blanks_skipped(rest)) {
                None => None,
                Some((value, rest)) => Some((key, value, rest)),
            },
        },
    }
}

/// The members `so_far`, with those that follow in the text up to the end of the
/// object, behind which nothing may follow.
pub open spec fn members_read(json: Seq<char>, so_far: Map<Seq<char>, Seq<char>>) -> Option<
    Map<Seq<char>, Seq<char>>,
>
    decreases json.len(),
{
    match member_read(json) {
        None => None,
        Some((key, value, rest)) => {
            let members = so_far.insert(key, value);
            match (after_sign(rest, ','), after_sign(rest, '}')) {
                (Some(more), _) => if more.len() < json.len() {
                    members_read(more, members)
                } else {
                    None
                },
                (None, Some(end)) => if blanks_skipped(end).len() == 0 {
                    Some(members)
                } else {
                    None
                },
                (None, None) => None,
            }
        },
    }
}

/// The members of the JSON object that a text stands for, when that is an object
/// whose values are all strings.
pub open spec fn object_read(json: Seq<char>) -> Option<Map<Seq<char>, Seq<char>>> {
    match after_sign(json, '{') {
        None => None,
        Some(inside) => match after_sign(inside, '}') {
            Some(end) => if blanks_skipped(end).len() == 0 {
                Some(Map::empty())
            } else {
                None
            },
            None => members_read(inside, Map::empty()),
        },
    }
}

proof fn lemma_escaped_reads_back(c: char, rest: Seq<char>)
    ensures
        char_read(json_escaped(c) + rest) == Some((c, rest)),
        json_escaped(c).len() > 0,
        json_escaped(c)[0] != '"',
{
    let u = c as u32;
    let escaped = json_escaped(c);
    let json = escaped + rest;
    assert(json.skip(escaped.len() as int) =~= rest);
    assert(forall|i: int| 0 <= i < escaped.len() ==> json[i] == escaped[i]);
    if u < 0x20 && escaped.len() == 6 {
        let (high, low) = (u as int / 16, u as int % 16);
        assert(hex_value(hex_digit(high)) == Some(high));
        assert(hex_value(hex_digit(low)) == Some(low));
        assert(unit_read(json) == Some(u as int));
    }
}

proof fn lemma_escapes_add(c: char, text: Seq<char>)
    ensures
        json_escapes(seq![c] + text) == json_escaped(c) + json_escapes(text),
    decreases text.len(),
{
    let all = seq![c] + text;
    if text.len() == 0 {
        assert(all.drop_last() =~= Seq::empty());
        assert(json_escapes(Seq::empty()) == Seq::<char>::empty());
        assert(all.last() == c);
        assert(json_escapes(all) =~= json_escaped(c) + json_escapes(text));
    } else {
        lemma_escapes_add(c, text.drop_last());
        assert(all.drop_last() =~= seq![c] + text.drop_last());
        assert(json_escapes(all) =~= json_escaped(c) + json_escapes(text));
    }
}

proof fn lemma_escapes_read_back(text: Seq<char>, rest: Seq<char>)
    ensures
        text_read(json_escapes(text) + seq!['"'] + rest) == Some((text, rest)),
    decreases text.len(),
{
    let json = json_escapes(text) + seq!['"'] + rest;
    if text.len() == 0 {
        assert(json.skip(1) =~= rest);
        assert(text =~= Seq::empty());
    } else {
        let tail = text.drop_first();
        let left = json_escapes(tail) + seq!['"'] + rest;
        lemma_escapes_add(text[0], tail);
        assert(seq![text[0]] + tail =~= text);
        assert(json =~= json_escaped(text[0]) + left);
        lemma_escaped_reads_back(text[0], left);
        lemma_escapes_read_back(tail, rest);
    }
}

/// A text that was written as a JSON string is read back as it was, whatever
/// follows it.
pub proof fn law_strings_read_back(text: Seq<char>, rest: Seq<char>)
    ensures
        string_read(json_string(text) + rest) == Some((text, rest)),
{
    let json = json_string(text) + rest;
    assert(json.skip(1) =~= json_escapes(text) + seq!['"'] + rest);
    lemma_escapes_read_back(text, rest);
}

proof fn lemma_plain_escapes(text: Seq<char>)
    requires
        forall|i: int| 0 <= i < text.len() ==> json_escaped(#[trigger] text[i]) == seq![text[i]],
    ensures
        json_escapes(text) == text,
    decreases text.len(),
{
    if text.len() > 0 {
        let front = text.drop_last();
        assert forall|i: int| 0 <= i < front.len() implies json_escaped(#[trigger] front[i])
            == seq![front[i]] by {
            assert(front[i] == text[i]);
        }
        lemma_plain_escapes(front);
        assert(json_escaped(text[text.len() - 1]) == seq![text.last()]);
        assert(front + seq![text.last()] =~= text);
    }
}

/// A key without characters that are escaped, written as a JSON string, stands
/// between quotes as it is.
pub proof fn lemma_plain_string(text: Seq<char>)
    requires
        forall|i: int| 0 <= i < text.len() ==> json_escaped(#[trigger] text[i]) == seq![text[i]],
    ensures
        json_string(text) == seq!['"'] + text + seq!['"'],
{
    lemma_plain_escapes(text);
}

/// A member that was written without blanks is read back as it was, whatever
/// follows it.
pub proof fn law_members_read_back(key: Seq<char>, value: Seq<char>, rest: Seq<char>)
    ensures
        member_read(json_string(key) + seq![':'] + json_string(value) + rest) == Some(
            (key, value, rest),
        ),
{
    let json = json_string(key) + seq![':'] + json_string(value) + rest;
    let after_key = seq![':'] + json_string(value) + rest;
    let after_colon = json_string(value) + rest;
    assert(json =~= json_string(key) + after_key);
    assert(blanks_skipped(json) == json);
    law_strings_read_back(key, after_key);
    assert(blanks_skipped(after_key) == after_key);
    assert(after_key.skip(1) =~= after_colon);
    assert(blanks_skipped(after_colon) == after_colon);
    law_strings_read_back(value, rest);
}

} // verus!
