//! What tables and sets of names give back of what was put into them.

use crate::table::{
    is_least_free, lemma_least_free_is_there, lemma_names_are_finite, lemma_unused_name_is_unused,
    numbered, NameSet, Table,
};
use crate::text::decimal;
use vstd::prelude::*;

verus! {

/// A new table holds nothing.
pub proof fn law_new_tables_are_empty<V>(table: Table<V>, key: &str, found: Option<&V>)
    requires
        call_ensures(Table::<V>::new, (), table),
        call_ensures(Table::<V>::get, (&table, key), found),
    ensures
        found is None,
{
}

/// Setting a value for a key is seen under that key, and under no other.
pub proof fn law_tables_give_back_what_was_set<V>(
    table: &mut Table<V>,
    key: String,
    value: V,
    before: Table<V>,
    after: Table<V>,
    other: &str,
    found_before: Option<&V>,
    found_after: Option<&V>,
)
    requires
        before@ == old(table)@,
        after@ == final(table)@,
        call_ensures(Table::<V>::insert, (table, key, value), ()),
        call_ensures(Table::<V>::get, (&before, other), found_before),
        call_ensures(Table::<V>::get, (&after, other), found_after),
    ensures
        other@ == key@ ==> found_after == Some(&value),
        other@ != key@ ==> found_after == found_before,
{
}

/// Taking a key out gives what was seen under it, which then is not seen any more;
/// all other keys are left alone.
pub proof fn law_tables_forget_what_was_removed<V>(
    table: &mut Table<V>,
    key: &str,
    removed: Option<V>,
    before: Table<V>,
    after: Table<V>,
    other: &str,
    found_before: Option<&V>,
    found_after: Option<&V>,
)
    requires
        before@ == old(table)@,
        after@ == final(table)@,
        call_ensures(Table::<V>::remove, (table, key), removed),
        call_ensures(Table::<V>::get, (&before, other), found_before),
        call_ensures(Table::<V>::get, (&after, other), found_after),
    ensures
        other@ == key@ ==> found_after is None && found_before == (match removed {
            Some(value) => Some(&value),
            None => None,
        }),
        other@ != key@ ==> found_after == found_before,
{
}

/// A name is in a set once it was added; a set that is new holds none, and adding one
/// changes nothing for the others.
pub proof fn law_sets_hold_what_was_added(
    set: &mut NameSet,
    name: String,
    before: NameSet,
    after: NameSet,
    other: &str,
    held_before: bool,
    held_after: bool,
    none: NameSet,
    held_by_none: bool,
)
    requires
        before@ == old(set)@,
        after@ == final(set)@,
        call_ensures(NameSet::insert, (set, name), ()),
        call_ensures(NameSet::contains, (&before, other), held_before),
        call_ensures(NameSet::contains, (&after, other), held_after),
        call_ensures(NameSet::new, (), none),
        call_ensures(NameSet::contains, (&none, other), held_by_none),
    ensures
        held_after <==> held_before || other@ == name@,
        !held_by_none,
{
}

/// The name that is found is not in the set. It is the one asked for where that is
/// free, and else that name with the least number behind it, in square brackets, with
/// which it is free.
pub proof fn law_unused_names(set: NameSet, base: String, r: String)
    requires
        call_ensures(NameSet::unused, (&set, base), r),
    ensures
        !set@.contains(r@),
        !set@.contains(base@) ==> r@ == base@,
        set@.contains(base@) ==> exists|n: nat|
            n >= 1 && r@ == base@ + seq!['['] + #[trigger] decimal(n) + seq![']'] && forall|m: nat|
                1 <= m < n ==> set@.contains(
                    base@ + seq!['['] + #[trigger] decimal(m) + seq![']'],
                ),
{
    lemma_names_are_finite(set);
    lemma_unused_name_is_unused(base@, set@);
    if set@.contains(base@) {
        let n = choose|n: nat| is_least_free(base@, set@, n);
        assert(is_least_free(base@, set@, n)) by {
            lemma_least_free_is_there(base@, set@);
        }
        assert forall|m: nat| 1 <= m < n implies set@.contains(
            base@ + seq!['['] + #[trigger] decimal(m) + seq![']'],
        ) by {
            assert(set@.contains(numbered(base@, m)));
        }
        assert(r@ == base@ + seq!['['] + decimal(n) + seq![']']);
    }
}

} // verus!
