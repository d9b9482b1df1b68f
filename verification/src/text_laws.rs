//! What the text helpers give, whatever text they are given.

use crate::text::{
    begins_with, decimal, digit, is_reserved, is_white_space, joined, same_text, starts_with, strip,
    stripped, to_decimal, trim, trim_end, trimmed, trimmed_end, trimmed_start, white_space,
};
use vstd::prelude::*;

verus! {

/// Decimal notation is read back by adding up its digits; it holds digits only, and
/// no zero in front of others.
pub proof fn law_decimal_notation(n: nat)
    ensures
        decimal(n).fold_left(0int, |v: int, c: char| 10 * v + (c as int - 48)) == n,
        decimal(n).len() > 0,
        forall|i: int| 0 <= i < decimal(n).len() ==> '0' <= #[trigger] decimal(n)[i] <= '9',
        decimal(n).len() > 1 ==> decimal(n)[0] != '0',
    decreases n,
{
    let f = |v: int, c: char| 10 * v + (c as int - 48);
    let s = decimal(n);
    if n >= 10 {
        law_decimal_notation(n / 10);
        assert(s.drop_last() =~= decimal(n / 10));
        assert(s.last() == digit(n % 10));
        assert(s.fold_left(0int, f) == f(s.drop_last().fold_left(0int, f), s.last()));
        assert forall|i: int| 0 <= i < s.len() implies '0' <= #[trigger] s[i] <= '9' by {
            if i < s.len() - 1 {
                assert(s[i] == decimal(n / 10)[i]);
            }
        }
        if decimal(n / 10).len() == 1 {
            assert(decimal(n / 10).drop_last() =~= Seq::empty());
            let d = decimal(n / 10)[0];
            assert(decimal(n / 10).fold_left(0int, f) == f(0int, d)) by {
                assert(decimal(n / 10).drop_last().fold_left(0int, f) == 0);
            }
        }
    } else {
        assert(s.drop_last() =~= Seq::empty());
        assert(s.drop_last().fold_left(0int, f) == 0);
        assert(s.fold_left(0int, f) == f(0int, digit(n)));
    }
}

/// A number is written so that adding up its digits gives the number.
pub proof fn law_numbers_are_written_in_decimal(n: u128, r: String)
    requires
        call_ensures(to_decimal, (n,), r),
    ensures
        r@.fold_left(0int, |v: int, c: char| 10 * v + (c as int - 48)) == n,
        forall|i: int| 0 <= i < r@.len() ==> '0' <= #[trigger] r@[i] <= '9',
        r@.len() > 1 ==> r@[0] != '0',
{
    law_decimal_notation(n as nat);
}

/// The characters that count as white space.
pub proof fn law_white_space(c: char, r: bool)
    requires
        call_ensures(white_space, (c,), r),
    ensures
        r == is_white_space(c),
        r <==> {
            ||| c == '\t' || c == '\n' || c == '\u{b}' || c == '\u{c}' || c == '\r' || c == ' '
            ||| c == '\u{85}' || c == '\u{a0}' || c == '\u{1680}' || c == '\u{2000}'
            ||| c == '\u{2001}' || c == '\u{2002}' || c == '\u{2003}' || c == '\u{2004}'
            ||| c == '\u{2005}' || c == '\u{2006}' || c == '\u{2007}' || c == '\u{2008}'
            ||| c == '\u{2009}' || c == '\u{200a}' || c == '\u{2028}' || c == '\u{2029}'
            ||| c == '\u{202f}' || c == '\u{205f}' || c == '\u{3000}'
        },
{
}

/// What is left of a text without its trailing white space: the front of it, up to
/// the last character that is not white space.
pub proof fn law_trimmed_end(s: Seq<char>)
    ensures
        trimmed_end(s).is_prefix_of(s),
        forall|i: int| trimmed_end(s).len() <= i < s.len() ==> is_white_space(#[trigger] s[i]),
        trimmed_end(s).len() > 0 ==> !is_white_space(trimmed_end(s).last()),
    decreases s.len(),
{
    if s.len() > 0 && is_white_space(s.last()) {
        let front = s.drop_last();
        law_trimmed_end(front);
        let r = trimmed_end(front);
        assert(r =~= s.subrange(0, r.len() as int)) by {
            assert(r =~= front.subrange(0, r.len() as int));
        }
        assert forall|i: int| r.len() <= i < s.len() implies is_white_space(#[trigger] s[i]) by {
            if i < front.len() {
                assert(s[i] == front[i]);
            }
        }
    } else {
        assert(s =~= s.subrange(0, s.len() as int));
    }
}

/// There is only one way to cut the white space off the end of a text.
pub proof fn law_trimmed_end_is_the_only_one(s: Seq<char>, r: Seq<char>)
    requires
        r.is_prefix_of(s),
        forall|i: int| r.len() <= i < s.len() ==> is_white_space(#[trigger] s[i]),
        r.len() > 0 ==> !is_white_space(r.last()),
    ensures
        trimmed_end(s) == r,
{
    law_trimmed_end(s);
    let t = trimmed_end(s);
    if t.len() < r.len() {
        assert(is_white_space(s[r.len() - 1]));
        assert(r.last() == s[r.len() - 1]);
    }
    if r.len() < t.len() {
        assert(is_white_space(s[t.len() - 1]));
        assert(t.last() == s[t.len() - 1]);
    }
    assert(t =~= r);
}

/// Cutting the white space off the end of a text takes nothing else away.
pub proof fn law_only_white_space_is_cut_off_the_end(s: &str, r: String)
    requires
        call_ensures(trim_end, (s,), r),
    ensures
        r@.is_prefix_of(s@),
        forall|i: int| r@.len() <= i < s@.len() ==> is_white_space(#[trigger] s@[i]),
        r@.len() > 0 ==> !is_white_space(r@.last()),
{
    law_trimmed_end(s@);
}

proof fn lemma_trimmed_start(s: Seq<char>)
    ensures
        trimmed_start(s).len() <= s.len(),
        trimmed_start(s) == s.skip(s.len() - trimmed_start(s).len()),
        forall|i: int|
            0 <= i < s.len() - trimmed_start(s).len() ==> is_white_space(#[trigger] s[i]),
        trimmed_start(s).len() > 0 ==> !is_white_space(trimmed_start(s)[0]),
    decreases s.len(),
{
    if s.len() > 0 && is_white_space(s.first()) {
        let rest = s.drop_first();
        lemma_trimmed_start(rest);
        let r = trimmed_start(rest);
        assert(rest.skip(rest.len() - r.len()) =~= s.skip(s.len() - r.len()));
        assert forall|i: int| 0 <= i < s.len() - r.len() implies is_white_space(
            #[trigger] s[i],
        ) by {
            if i > 0 {
                assert(s[i] == rest[i - 1]);
            }
        }
    } else {
        assert(s.skip(0) =~= s);
    }
}

/// What is left of a text without the white space at either end: there is nothing
/// but white space in front of it and behind it, and it neither begins nor ends with
/// any.
pub proof fn law_trimmed(s: Seq<char>)
    ensures
        exists|start: int, end: int|
            0 <= start <= end <= s.len() && trimmed(s) == #[trigger] s.subrange(start, end) && (
            forall|i: int|
                0 <= i < start || end <= i < s.len() ==> is_white_space(#[trigger] s[i])),
        trimmed(s).len() > 0 ==> !is_white_space(trimmed(s)[0]) && !is_white_space(
            trimmed(s).last(),
        ),
{
    law_trimmed_end(s);
    let t = trimmed_end(s);
    lemma_trimmed_start(t);
    let start = t.len() - trimmed(s).len();
    let end = t.len() as int;
    assert(trimmed(s) =~= s.subrange(start, end));
    assert forall|i: int| 0 <= i < start || end <= i < s.len() implies is_white_space(
        #[trigger] s[i],
    ) by {
        if i < start {
            assert(t[i] == s[i]);
        }
    }
}

/// Cutting the white space off both ends of a text takes nothing else away.
pub proof fn law_only_white_space_is_cut_off(s: &str, r: String)
    requires
        call_ensures(trim, (s,), r),
    ensures
        exists|start: int, end: int|
            0 <= start <= end <= s@.len() && r@ == #[trigger] s@.subrange(start, end) && (forall|
                i: int,
            |
                0 <= i < start || end <= i < s@.len() ==> is_white_space(#[trigger] s@[i])),
        r@.len() > 0 ==> !is_white_space(r@[0]) && !is_white_space(r@.last()),
{
    law_trimmed(s@);
}

/// Texts are the same when all of their characters are.
pub proof fn law_same_text(a: &str, b: &str, r: bool)
    requires
        call_ensures(same_text, (a, b), r),
    ensures
        r <==> a@.len() == b@.len() && forall|i: int| 0 <= i < a@.len() ==> a@[i] == b@[i],
{
    if a@.len() == b@.len() && forall|i: int| 0 <= i < a@.len() ==> a@[i] == b@[i] {
        assert(a@ =~= b@);
    }
}

/// A text begins with a prefix when something can be put behind the prefix that gives
/// the text.
pub proof fn law_starts_with(s: &str, prefix: &str, r: bool)
    requires
        call_ensures(starts_with, (s, prefix), r),
    ensures
        r <==> exists|rest: Seq<char>| s@ == #[trigger] (prefix@ + rest),
{
    let n = prefix@.len() as int;
    if begins_with(s@, prefix@) {
        assert(s@ =~= prefix@ + s@.skip(n));
    }
    if exists|rest: Seq<char>| s@ == #[trigger] (prefix@ + rest) {
        let rest = choose|rest: Seq<char>| s@ == #[trigger] (prefix@ + rest);
        assert(s@.take(n) =~= prefix@);
    }
}

/// Two texts are joined by putting the second one behind the first.
pub proof fn law_joined(a: &str, b: &str, r: String)
    requires
        call_ensures(joined, (a, b), r),
    ensures
        r@.len() == a@.len() + b@.len(),
        forall|i: int| 0 <= i < a@.len() ==> r@[i] == a@[i],
        forall|i: int| 0 <= i < b@.len() ==> r@[a@.len() + i] == b@[i],
{
}

/// What is left of a text without its reserved characters, taken apart: a reserved
/// character leaves nothing, any other one is left as it is, and the pieces of a text
/// leave the pieces of what the text leaves.
pub proof fn law_stripped(a: Seq<char>, b: Seq<char>, c: char)
    ensures
        stripped(a + b) == stripped(a) + stripped(b),
        stripped(seq![c]) == if c <= ' ' || c == '@' || c == '"' || c == '+' || c == '#' || c
            == '\u{7f}' {
            Seq::empty()
        } else {
            seq![c]
        },
        stripped(Seq::empty()) == Seq::<char>::empty(),
    decreases b.len(),
{
    let keep = |c: char| !is_reserved(c);
    reveal(Seq::filter);
    assert(seq![c].drop_last() =~= Seq::empty());
    assert(seq![c].last() == c);
    assert(Seq::<char>::empty().filter(keep) =~= Seq::empty());
    if b.len() == 0 {
        assert(a + b =~= a);
        assert(stripped(a) + stripped(b) =~= stripped(a));
    } else {
        law_stripped(a, b.drop_last(), c);
        assert((a + b).drop_last() =~= a + b.drop_last());
        assert((a + b).last() == b.last());
        assert(stripped(a + b) =~= stripped(a) + stripped(b));
    }
}

/// Stripping one character takes it away when it is reserved, and leaves it otherwise.
pub proof fn law_reserved_characters(s: &str, r: String)
    requires
        call_ensures(strip, (s,), r),
        s@.len() == 1,
    ensures
        r@ == if s@[0] <= ' ' || s@[0] == '@' || s@[0] == '"' || s@[0] == '+' || s@[0] == '#'
            || s@[0] == '\u{7f}' {
            Seq::empty()
        } else {
            s@
        },
{
    law_stripped(Seq::empty(), Seq::empty(), s@[0]);
    assert(seq![s@[0]] =~= s@);
}

/// Stripping two texts and joining what is left gives what is left of the joined
/// texts.
pub proof fn law_stripping_goes_by_characters(
    a: &str,
    b: &str,
    both: &str,
    left_a: String,
    left_b: String,
    left: String,
)
    requires
        both@ == a@ + b@,
        call_ensures(strip, (a,), left_a),
        call_ensures(strip, (b,), left_b),
        call_ensures(strip, (both,), left),
    ensures
        left@ == left_a@ + left_b@,
{
    law_stripped(a@, b@, ' ');
}

} // verus!
