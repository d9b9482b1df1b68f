//! Tables keyed by text, and sets of names with a way to find unused ones.

use crate::text::{decimal, joined, lemma_decimal_injective, to_decimal};
use vstd::prelude::*;
use vstd::string::StringExecFns;

verus! {

/// A table from texts to values. No key occurs twice.
pub struct Table<V> {
    entries: Vec<(String, V)>,
}

/// No key occurs twice among the entries.
spec fn distinct_keys<V>(entries: Seq<(String, V)>) -> bool {
    forall|i: int, j: int|
        0 <= i < j < entries.len() ==> (#[trigger] entries[i]).0@ != (#[trigger] entries[j]).0@
}

/// The entry for a key stands at this position.
spec fn entry_at<V>(entries: Seq<(String, V)>, key: Seq<char>, i: int) -> bool {
    0 <= i < entries.len() && entries[i].0@ == key
}

/// What the entries map each key to.
spec fn entries_map<V>(entries: Seq<(String, V)>) -> Map<Seq<char>, V> {
    Map::new(
        |key: Seq<char>| exists|i: int| entry_at(entries, key, i),
        |key: Seq<char>| entries[choose|i: int| entry_at(entries, key, i)].1,
    )
}

proof fn lemma_entry<V>(entries: Seq<(String, V)>, i: int)
    requires
        distinct_keys(entries),
        0 <= i < entries.len(),
    ensures
        entries_map(entries).contains_key(entries[i].0@),
        entries_map(entries)[entries[i].0@] == entries[i].1,
{
    let key = entries[i].0@;
    assert(entry_at(entries, key, i));
    let j = choose|j: int| entry_at(entries, key, j);
    assert(entry_at(entries, key, j));
    assert(j == i);
}

proof fn lemma_entries_push<V>(entries: Seq<(String, V)>, key: String, value: V)
    requires
        distinct_keys(entries),
        !entries_map(entries).contains_key(key@),
    ensures
        distinct_keys(entries.push((key, value))),
        entries_map(entries.push((key, value))) == entries_map(entries).insert(key@, value),
{
    let next = entries.push((key, value));
    assert forall|i: int, j: int| 0 <= i < j < next.len() implies (#[trigger] next[i]).0@ != (
    #[trigger] next[j]).0@ by {
        if j == entries.len() {
            assert(next[i] == entries[i]);
            lemma_entry(entries, i);
        } else {
            assert(next[i] == entries[i] && next[j] == entries[j]);
        }
    }
    let left = entries_map(next);
    let right = entries_map(entries).insert(key@, value);
    assert forall|k: Seq<char>| left.contains_key(k) <==> right.contains_key(k) by {
        if left.contains_key(k) {
            let i = choose|i: int| entry_at(next, k, i);
            assert(entry_at(next, k, i));
            if i < entries.len() {
                assert(entry_at(entries, k, i));
            }
        }
        if right.contains_key(k) {
            if k == key@ {
                assert(entry_at(next, k, entries.len() as int));
            } else {
                let i = choose|i: int| entry_at(entries, k, i);
                assert(entry_at(entries, k, i));
                assert(entry_at(next, k, i));
            }
        }
    }
    assert forall|k: Seq<char>| left.contains_key(k) implies #[trigger] left[k] == right[k] by {
        let i = choose|i: int| entry_at(next, k, i);
        assert(entry_at(next, k, i));
        lemma_entry(next, i);
        if i < entries.len() {
            lemma_entry(entries, i);
        }
    }
    assert(left =~= right);
}

proof fn lemma_entries_remove<V>(entries: Seq<(String, V)>, at: int)
    requires
        distinct_keys(entries),
        0 <= at < entries.len(),
    ensures
        distinct_keys(entries.remove(at)),
        entries_map(entries.remove(at)) == entries_map(entries).remove(entries[at].0@),
{
    let next = entries.remove(at);
    let key = entries[at].0@;
    assert forall|i: int, j: int| 0 <= i < j < next.len() implies (#[trigger] next[i]).0@ != (
    #[trigger] next[j]).0@ by {
        let oi = if i < at { i } else { i + 1 };
        let oj = if j < at { j } else { j + 1 };
        assert(next[i] == entries[oi] && next[j] == entries[oj]);
    }
    let left = entries_map(next);
    let right = entries_map(entries).remove(key);
    assert forall|k: Seq<char>| left.contains_key(k) <==> right.contains_key(k) by {
        if left.contains_key(k) {
            let i = choose|i: int| entry_at(next, k, i);
            assert(entry_at(next, k, i));
            let oi = if i < at { i } else { i + 1 };
            assert(next[i] == entries[oi]);
            assert(entry_at(entries, k, oi));
        }
        if right.contains_key(k) {
            let oi = choose|i: int| entry_at(entries, k, i);
            assert(entry_at(entries, k, oi));
            let i = if oi < at { oi } else { oi - 1 };
            assert(next[i] == entries[oi]);
            assert(entry_at(next, k, i));
        }
    }
    assert forall|k: Seq<char>| left.contains_key(k) implies #[trigger] left[k] == right[k] by {
        let i = choose|i: int| entry_at(next, k, i);
        assert(entry_at(next, k, i));
        lemma_entry(next, i);
        let oi = if i < at { i } else { i + 1 };
        assert(next[i] == entries[oi]);
        lemma_entry(entries, oi);
    }
    assert(left =~= right);
}

/// Finds the entry for a key.
fn find<V>(entries: &Vec<(String, V)>, key: &str) -> (r: Option<usize>)
    requires
        distinct_keys(entries@),
    ensures
        match r {
            Some(i) => entry_at(entries@, key@, i as int),
            None => !entries_map(entries@).contains_key(key@),
        },
{
    let wanted: String = key.to_owned();
    let mut i: usize = 0;
    while i < entries.len()
        invariant
            i <= entries@.len(),
            wanted@ == key@,
            forall|j: int| 0 <= j < i ==> (#[trigger] entries@[j]).0@ != key@,
        decreases entries@.len() - i,
    {
        if entries[i].0 == wanted {
            return Some(i);
        }
        i = i + 1;
    }
    None
}

impl<V> View for Table<V> {
    type V = Map<Seq<char>, V>;

    closed spec fn view(&self) -> Map<Seq<char>, V> {
        entries_map(self.entries@)
    }
}

impl<V> Table<V> {
    #[verifier::type_invariant]
    spec fn inv(self) -> bool {
        distinct_keys(self.entries@)
    }

    /// An empty table.
    pub fn new() -> (r: Table<V>)
        ensures
            r@ == Map::<Seq<char>, V>::empty(),
    {
        let r = Table { entries: Vec::new() };
        assert(r@ =~= Map::<Seq<char>, V>::empty()) by {
            assert forall|k: Seq<char>| !(#[trigger] r@.contains_key(k)) by {
                assert(forall|i: int| !entry_at(r.entries@, k, i));
            }
        }
        r
    }

    /// Looks a key up.
    pub fn get(&self, key: &str) -> (r: Option<&V>)
        ensures
            match r {
                Some(v) => self@.contains_key(key@) && self@[key@] == *v,
                None => !self@.contains_key(key@),
            },
    {
        proof {
            use_type_invariant(self);
        }
        match find(&self.entries, key) {
            Some(i) => {
                proof {
                    lemma_entry(self.entries@, i as int);
                }
                Some(&self.entries[i].1)
            },
            None => None,
        }
    }

    /// Takes a key and its value out of the table.
    pub fn remove(&mut self, key: &str) -> (r: Option<V>)
        ensures
            final(self)@ == old(self)@.remove(key@),
            match r {
                Some(v) => old(self)@.contains_key(key@) && old(self)@[key@] == v,
                None => !old(self)@.contains_key(key@),
            },
    {
        proof {
            use_type_invariant(&*self);
        }
        match find(&self.entries, key) {
            Some(i) => {
                let mut entries: Vec<(String, V)> = Vec::new();
                std::mem::swap(&mut self.entries, &mut entries);
                proof {
                    lemma_entry(entries@, i as int);
                    lemma_entries_remove(entries@, i as int);
                }
                let (_, value) = entries.remove(i);
                self.entries = entries;
                Some(value)
            },
            None => {
                assert(self@.remove(key@) =~= self@);
                None
            },
        }
    }

    /// Sets the value for a key.
    pub fn insert(&mut self, key: String, value: V)
        ensures
            final(self)@ == old(self)@.insert(key@, value),
    {
        let _ = self.remove(key.as_str());
        proof {
            use_type_invariant(&*self);
        }
        let mut entries: Vec<(String, V)> = Vec::new();
        std::mem::swap(&mut self.entries, &mut entries);
        proof {
            lemma_entries_push(entries@, key, value);
        }
        entries.push((key, value));
        self.entries = entries;
        assert(old(self)@.remove(key@).insert(key@, value) =~= old(self)@.insert(key@, value));
    }
}

/// A table of texts, read as a map from texts to texts.
pub open spec fn texts(table: Map<Seq<char>, String>) -> Map<Seq<char>, Seq<char>> {
    table.map_values(|value: String| value@)
}

/// Setting a text for a key sets it in the map of texts.
pub proof fn lemma_texts_insert(table: Map<Seq<char>, String>, key: Seq<char>, value: String)
    ensures
        texts(table.insert(key, value)) == texts(table).insert(key, value@),
{
    assert(texts(table.insert(key, value)) =~= texts(table).insert(key, value@));
}

/// Removing a key removes it from the map of texts.
pub proof fn lemma_texts_remove(table: Map<Seq<char>, String>, key: Seq<char>)
    ensures
        texts(table.remove(key)) == texts(table).remove(key),
{
    assert(texts(table.remove(key)) =~= texts(table).remove(key));
}

/// A set of names.
pub struct NameSet {
    names: Vec<String>,
}

/// The texts of a list of names.
spec fn name_texts(names: Seq<String>) -> Seq<Seq<char>> {
    names.map_values(|name: String| name@)
}

impl View for NameSet {
    type V = Set<Seq<char>>;

    closed spec fn view(&self) -> Set<Seq<char>> {
        name_texts(self.names@).to_set()
    }
}

/// `base` with the number `n` behind it in square brackets.
pub open spec fn numbered(base: Seq<char>, n: nat) -> Seq<char> {
    base + seq!['['] + decimal(n) + seq![']']
}

/// `n` is the least number, counting from one, with which `base` gives a name
/// that is not taken.
pub open spec fn is_least_free(base: Seq<char>, taken: Set<Seq<char>>, n: nat) -> bool {
    &&& 1 <= n
    &&& !taken.contains(numbered(base, n))
    &&& forall|m: nat| 1 <= m < n ==> taken.contains(#[trigger] numbered(base, m))
}

/// The name used for `base` when the names in `taken` are in use: `base` itself
/// when it is free, else the first free one of `base[1]`, `base[2]`, and so on.
pub open spec fn unused_name(base: Seq<char>, taken: Set<Seq<char>>) -> Seq<char> {
    if taken.contains(base) {
        numbered(base, choose|n: nat| is_least_free(base, taken, n))
    } else {
        base
    }
}

proof fn lemma_least_free_unique(base: Seq<char>, taken: Set<Seq<char>>, a: nat, b: nat)
    requires
        is_least_free(base, taken, a),
        is_least_free(base, taken, b),
    ensures
        a == b,
{
    if a < b {
        assert(taken.contains(numbered(base, a)));
    }
    if b < a {
        assert(taken.contains(numbered(base, b)));
    }
}

/// Different numbers give different names.
pub proof fn lemma_numbered_injective(base: Seq<char>, a: nat, b: nat)
    requires
        numbered(base, a) == numbered(base, b),
    ensures
        a == b,
{
    let x = numbered(base, a);
    let from = base.len() as int + 1;
    assert(x.subrange(from, x.len() - 1) =~= decimal(a));
    assert(numbered(base, b).subrange(from, x.len() - 1) =~= decimal(b));
    lemma_decimal_injective(a, b);
}

/// The first `n` numbered names.
spec fn numbered_names(base: Seq<char>, n: nat) -> Set<Seq<char>>
    decreases n,
{
    if n == 0 {
        Set::empty()
    } else {
        numbered_names(base, (n - 1) as nat).insert(numbered(base, n))
    }
}

proof fn lemma_numbered_names(base: Seq<char>, n: nat)
    ensures
        numbered_names(base, n).finite(),
        numbered_names(base, n).len() == n,
        forall|s: Seq<char>| #[trigger]
            numbered_names(base, n).contains(s) ==> exists|m: nat|
                1 <= m <= n && s == numbered(base, m),
    decreases n,
{
    if n > 0 {
        lemma_numbered_names(base, (n - 1) as nat);
        if numbered_names(base, (n - 1) as nat).contains(numbered(base, n)) {
            let m = choose|m: nat| 1 <= m <= n - 1 && numbered(base, n) == numbered(base, m);
            lemma_numbered_injective(base, n, m);
        }
        assert forall|s: Seq<char>| #[trigger]
            numbered_names(base, n).contains(s) implies exists|m: nat|
            1 <= m <= n && s == numbered(base, m) by {
            if s == numbered(base, n) {
                assert(1 <= n <= n && s == numbered(base, n));
            } else {
                let m = choose|m: nat| 1 <= m <= n - 1 && s == numbered(base, m);
                assert(1 <= m <= n && s == numbered(base, m));
            }
        }
    }
}

/// A set of `len` names at most cannot hold more than `len` numbered names.
proof fn lemma_taken_bound(base: Seq<char>, names: Seq<Seq<char>>, n: nat)
    requires
        forall|m: nat| 1 <= m <= n ==> names.to_set().contains(#[trigger] numbered(base, m)),
    ensures
        n <= names.len(),
{
    lemma_numbered_names(base, n);
    names.lemma_cardinality_of_set();
    vstd::seq_lib::seq_to_set_is_finite(names);
    let some = numbered_names(base, n);
    assert(some.subset_of(names.to_set())) by {
        assert forall|s: Seq<char>| some.contains(s) implies names.to_set().contains(s) by {
            let m = choose|m: nat| 1 <= m <= n && s == numbered(base, m);
            assert(names.to_set().contains(numbered(base, m)));
        }
    }
    vstd::set_lib::lemma_len_subset(some, names.to_set());
}

/// If the `n`-th numbered name is free, then some number up to `n` is the least
/// one with which the name is free.
proof fn lemma_least_free_exists(base: Seq<char>, taken: Set<Seq<char>>, n: nat)
    requires
        1 <= n,
        !taken.contains(numbered(base, n)),
    ensures
        exists|m: nat| is_least_free(base, taken, m),
    decreases n,
{
    if exists|m: nat| 1 <= m < n && !taken.contains(#[trigger] numbered(base, m)) {
        let m = choose|m: nat| 1 <= m < n && !taken.contains(#[trigger] numbered(base, m));
        lemma_least_free_exists(base, taken, m);
    } else {
        assert(is_least_free(base, taken, n));
    }
}

/// Some number gives a name that is not taken, and so there is a least one.
pub proof fn lemma_least_free_is_there(base: Seq<char>, taken: Set<Seq<char>>)
    requires
        taken.finite(),
    ensures
        exists|n: nat| is_least_free(base, taken, n),
{
    let n = taken.len() + 1;
    lemma_numbered_names(base, n);
    let some = numbered_names(base, n);
    if some.subset_of(taken) {
        vstd::set_lib::lemma_len_subset(some, taken);
    }
    let s = choose|s: Seq<char>| some.contains(s) && !taken.contains(s);
    let m = choose|m: nat| 1 <= m <= n && s == numbered(base, m);
    lemma_least_free_exists(base, taken, m);
}

/// The name that is found for `base` is not taken.
pub proof fn lemma_unused_name_is_unused(base: Seq<char>, taken: Set<Seq<char>>)
    requires
        taken.finite(),
    ensures
        !taken.contains(unused_name(base, taken)),
        unused_name(base, taken) == base || exists|n: nat|
            unused_name(base, taken) == #[trigger] numbered(base, n),
{
    if taken.contains(base) {
        lemma_least_free_is_there(base, taken);
    }
}

/// A set of names is finite.
pub proof fn lemma_names_are_finite(set: NameSet)
    ensures
        set@.finite(),
{
    vstd::seq_lib::seq_to_set_is_finite(name_texts(set.names@));
}

impl NameSet {
    /// The empty set.
    pub fn new() -> (r: NameSet)
        ensures
            r@ == Set::<Seq<char>>::empty(),
    {
        let r = NameSet { names: Vec::new() };
        assert(name_texts(r.names@) =~= Seq::<Seq<char>>::empty());
        assert(r@ =~= Set::<Seq<char>>::empty());
        r
    }

    /// Adds a name.
    pub fn insert(&mut self, name: String)
        ensures
            final(self)@ == old(self)@.insert(name@),
    {
        let ghost before = name_texts(self.names@);
        self.names.push(name);
        proof {
            let after = name_texts(self.names@);
            assert(after =~= before.push(name@));
            assert forall|s: Seq<char>| after.to_set().contains(s) <==> before.to_set().insert(
                name@,
            ).contains(s) by {
                if before.contains(s) {
                    let i = choose|i: int| 0 <= i < before.len() && before[i] == s;
                    assert(after[i] == s);
                }
                assert(after[before.len() as int] == name@);
                if after.contains(s) {
                    let i = choose|i: int| 0 <= i < after.len() && after[i] == s;
                    if i < before.len() {
                        assert(before[i] == s);
                    }
                }
            }
            assert(after.to_set() =~= before.to_set().insert(name@));
        }
    }

    /// Tells whether a name is in the set.
    pub fn contains(&self, name: &str) -> (r: bool)
        ensures
            r == self@.contains(name@),
    {
        let wanted: String = name.to_owned();
        let ghost all = name_texts(self.names@);
        let mut i: usize = 0;
        while i < self.names.len()
            invariant
                i <= self.names@.len(),
                wanted@ == name@,
                all == name_texts(self.names@),
                forall|j: int| 0 <= j < i ==> (#[trigger] all[j]) != name@,
            decreases self.names@.len() - i,
        {
            assert(all[i as int] == self.names@[i as int]@);
            if self.names[i] == wanted {
                assert(all.contains(name@));
                return true;
            }
            i = i + 1;
        }
        false
    }

    /// Finds a name that is not in the set, close to `base`.
    pub fn unused(&self, base: String) -> (r: String)
        ensures
            r@ == unused_name(base@, self@),
            !self@.contains(r@),
    {
        if !self.contains(base.as_str()) {
            return base;
        }
        let count: usize = self.names.len();
        let mut n: u128 = 1;
        loop
            invariant
                self@.contains(base@),
                count == self.names@.len(),
                1 <= n <= count + 1,
                forall|m: nat| 1 <= m < n ==> self@.contains(#[trigger] numbered(base@, m)),
            decreases count + 1 - n,
        {
            let digits: String = to_decimal(n);
            let mut name: String = joined(base.as_str(), "[");
            name.append(digits.as_str());
            name.append("]");
            proof {
                reveal_strlit("[");
                reveal_strlit("]");
                assert("["@ =~= seq!['[']);
                assert("]"@ =~= seq![']']);
                assert(name@ == numbered(base@, n as nat));
            }
            if !self.contains(name.as_str()) {
                proof {
                    assert(is_least_free(base@, self@, n as nat));
                    let m = choose|m: nat| is_least_free(base@, self@, m);
                    lemma_least_free_unique(base@, self@, m, n as nat);
                }
                return name;
            }
            proof {
                assert forall|m: nat| 1 <= m <= n implies self@.contains(
                    #[trigger] numbered(base@, m),
                ) by {}
                lemma_taken_bound(base@, name_texts(self.names@), n as nat);
            }
            n = n + 1;
        }
    }
}

} // verus!
