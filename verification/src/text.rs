//! Text helpers: what the names and lines of the gateway are built from.

use vstd::prelude::*;
use vstd::string::StrSliceExecFns;
use vstd::string::StringExecFns;
use vstd::utf8::{decode_utf8, valid_utf8};

verus! {

/// [`String::push`] appends one character to the end of the text.
pub assume_specification[ String::push ](text: &mut String, c: char)
    ensures
        final(text)@ == old(text)@.push(c),
;

/// [`String::from_utf8`] reads bytes as text when they are valid UTF-8, and
/// gives no text otherwise.
#[verifier::external_body]
pub(crate) fn utf8_text(bytes: Vec<u8>) -> (r: Option<String>)
    ensures
        match r {
            Some(text) => valid_utf8(bytes@) && text@ == decode_utf8(bytes@),
            None => !valid_utf8(bytes@),
        },
{
    String::from_utf8(bytes).ok()
}

/// The decimal digit with value `d`.
pub open spec fn digit(d: nat) -> char {
    (48 + d) as char
}

/// The decimal notation of a number, without leading zeros.
pub open spec fn decimal(n: nat) -> Seq<char>
    decreases n,
{
    if n < 10 {
        seq![digit(n)]
    } else {
        decimal(n / 10).push(digit(n % 10))
    }
}

/// The decimal notation names its number.
pub proof fn lemma_decimal_injective(a: nat, b: nat)
    requires
        decimal(a) == decimal(b),
    ensures
        a == b,
    decreases a,
{
    let s = decimal(a);
    lemma_decimal_len(a);
    lemma_decimal_len(b);
    assert(s.last() == digit(a % 10));
    assert(s.last() == digit(b % 10));
    assert(a % 10 == b % 10);
    if a >= 10 && b >= 10 {
        assert(decimal(a).drop_last() =~= decimal(a / 10));
        assert(decimal(b).drop_last() =~= decimal(b / 10));
        lemma_decimal_injective(a / 10, b / 10);
    }
}

proof fn lemma_decimal_len(n: nat)
    ensures
        decimal(n).len() >= 1,
        n < 10 <==> decimal(n).len() == 1,
    decreases n,
{
    if n >= 10 {
        lemma_decimal_len(n / 10);
    }
}

/// Writes a number in decimal notation.
pub fn to_decimal(n: u128) -> (r: String)
    ensures
        r@ == decimal(n as nat),
    decreases n,
{
    if n < 10 {
        let mut s: String = String::new();
        s.push((48u8 + n as u8) as char);
        s
    } else {
        let mut s: String = to_decimal(n / 10);
        s.push((48u8 + (n % 10) as u8) as char);
        s
    }
}

/// Characters with the Unicode property `White_Space`.
pub open spec fn is_white_space(c: char) -> bool {
    ||| 0x09 <= c as u32 <= 0x0d
    ||| c as u32 == 0x20
    ||| c as u32 == 0x85
    ||| c as u32 == 0xa0
    ||| c as u32 == 0x1680
    ||| 0x2000 <= c as u32 <= 0x200a
    ||| c as u32 == 0x2028
    ||| c as u32 == 0x2029
    ||| c as u32 == 0x202f
    ||| c as u32 == 0x205f
    ||| c as u32 == 0x3000
}

/// Tells white space from other characters.
pub fn white_space(c: char) -> (r: bool)
    ensures
        r == is_white_space(c),
{
    let u: u32 = c as u32;
    (0x09 <= u && u <= 0x0d) || u == 0x20 || u == 0x85 || u == 0xa0 || u == 0x1680 || (0x2000 <= u
        && u <= 0x200a) || u == 0x2028 || u == 0x2029 || u == 0x202f || u == 0x205f || u == 0x3000
}

/// The text without its trailing white space.
pub open spec fn trimmed_end(s: Seq<char>) -> Seq<char>
    decreases s.len(),
{
    if s.len() > 0 && is_white_space(s.last()) {
        trimmed_end(s.drop_last())
    } else {
        s
    }
}

/// The text without its leading white space.
pub open spec fn trimmed_start(s: Seq<char>) -> Seq<char>
    decreases s.len(),
{
    if s.len() > 0 && is_white_space(s.first()) {
        trimmed_start(s.drop_first())
    } else {
        s
    }
}

/// The text without white space at either end.
pub open spec fn trimmed(s: Seq<char>) -> Seq<char> {
    trimmed_start(trimmed_end(s))
}

/// Cuts the white space off the end of a text.
pub fn trim_end(s: &str) -> (r: String)
    ensures
        r@ == trimmed_end(s@),
{
    let mut end: usize = s.unicode_len();
    assert(s@.take(end as int) =~= s@);
    while end > 0 && white_space(s.get_char(end - 1))
        invariant
            end <= s@.len(),
            trimmed_end(s@.take(end as int)) == trimmed_end(s@),
        ensures
            end <= s@.len(),
            trimmed_end(s@.take(end as int)) == trimmed_end(s@),
            end > 0 ==> !is_white_space(s@[end - 1]),
        decreases end,
    {
        assert(s@.take(end as int).drop_last() =~= s@.take(end - 1));
        end = end - 1;
    }
    s.substring_char(0, end).to_owned()
}

/// Cuts the white space off both ends of a text.
pub fn trim(s: &str) -> (r: String)
    ensures
        r@ == trimmed(s@),
{
    let t: String = trim_end(s);
    let n: usize = t.as_str().unicode_len();
    let mut start: usize = 0;
    assert(t@.skip(0) =~= t@);
    while start < n && white_space(t.as_str().get_char(start))
        invariant
            start <= n == t@.len(),
            trimmed_start(t@.skip(start as int)) == trimmed_start(t@),
        ensures
            start <= n == t@.len(),
            trimmed_start(t@.skip(start as int)) == trimmed_start(t@),
            start < n ==> !is_white_space(t@[start as int]),
        decreases n - start,
    {
        assert(t@.skip(start as int).drop_first() =~= t@.skip(start + 1));
        start = start + 1;
    }
    let r: String = t.as_str().substring_char(start, n).to_owned();
    assert(r@ =~= t@.skip(start as int));
    r
}

/// Compares two texts.
pub fn same_text(a: &str, b: &str) -> (r: bool)
    ensures
        r == (a@ == b@),
{
    a.to_owned() == b.to_owned()
}

/// Tells whether a text begins with a given prefix.
pub open spec fn begins_with(s: Seq<char>, prefix: Seq<char>) -> bool {
    prefix.len() <= s.len() && s.take(prefix.len() as int) == prefix
}

/// Tests a text for a prefix.
pub fn starts_with(s: &str, prefix: &str) -> (r: bool)
    ensures
        r == begins_with(s@, prefix@),
{
    let n: usize = prefix.unicode_len();
    if n <= s.unicode_len() {
        let head: &str = s.substring_char(0, n);
        assert(s@.subrange(0, n as int) =~= s@.take(n as int));
        same_text(head, prefix)
    } else {
        false
    }
}

/// Characters that neither a nick nor a channel taken from a display name may
/// hold: control characters, the space, and `@`, `"`, `+`, `#`.
pub open spec fn is_reserved(c: char) -> bool {
    c as u32 <= 0x20 || c == '@' || c == '"' || c == '+' || c == '#' || c as u32 == 0x7f
}

/// A text without its reserved characters.
pub open spec fn stripped(s: Seq<char>) -> Seq<char> {
    s.filter(|c: char| !is_reserved(c))
}

/// Removes the reserved characters from a text.
pub fn strip(s: &str) -> (r: String)
    ensures
        r@ == stripped(s@),
{
    let mut out: String = String::new();
    let ghost keep = |c: char| !is_reserved(c);
    for c in it: s.chars()
        invariant
            it.seq() == s@,
            keep == (|c: char| !is_reserved(c)),
            out@ == s@.take(it.index() as int).filter(keep),
    {
        let ghost i = it.index() as int;
        proof {
            assert(s@.take(i + 1).drop_last() =~= s@.take(i));
            assert(s@.take(i + 1).last() == c);
            reveal(Seq::filter);
        }
        let u: u32 = c as u32;
        if !(u <= 0x20 || c == '@' || c == '"' || c == '+' || c == '#' || u == 0x7f) {
            out.push(c);
        }
    }
    assert(s@.take(s@.len() as int) =~= s@);
    out
}

/// Joins two texts.
pub fn joined(a: &str, b: &str) -> (r: String)
    ensures
        r@ == a@ + b@,
{
    let mut s: String = a.to_owned();
    s.append(b);
    s
}

} // verus!
