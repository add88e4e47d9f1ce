//! Tables keyed by text: a sequence of `(key, value)` entries in which no key
//! occurs twice. Nodes are held in such a table by their index, and the
//! inputs of a node by their name.

use vstd::prelude::*;

verus! {

/// `str`'s `==` from the standard library: two slices are equal exactly when
/// they hold the same characters.
pub assume_specification[ <str as PartialEq>::eq ](a: &str, b: &str) -> (res: bool)
    ensures
        res == (a@ == b@),
;

/// The entries of an executable table as plain values: each key by its
/// characters, each value by its view.
pub open spec fn entries_view<V: View>(entries: Seq<(String, V)>) -> Seq<(Seq<char>, V::V)> {
    entries.map_values(|entry: (String, V)| (entry.0@, entry.1@))
}

/// No key occurs twice.
pub open spec fn distinct_keys<V>(entries: Seq<(Seq<char>, V)>) -> bool {
    forall|i: int, j: int|
        #![trigger entries[i], entries[j]]
        0 <= i < j < entries.len() ==> entries[i].0 != entries[j].0
}

/// Some entry has the key `key`.
pub open spec fn has_key<V>(entries: Seq<(Seq<char>, V)>, key: Seq<char>) -> bool {
    exists|i: int| 0 <= i < entries.len() && (#[trigger] entries[i]).0 == key
}

/// Where the entry with the key `key` stands, if there is one.
pub open spec fn position<V>(entries: Seq<(Seq<char>, V)>, key: Seq<char>) -> int {
    choose|i: int| 0 <= i < entries.len() && (#[trigger] entries[i]).0 == key
}

/// The value stored under `key`, or `None` if no entry has that key.
pub open spec fn lookup<V>(entries: Seq<(Seq<char>, V)>, key: Seq<char>) -> Option<V> {
    if has_key(entries, key) {
        Some(entries[position(entries, key)].1)
    } else {
        None
    }
}

/// In a table without repeated keys, the entry at `i` is the one that a
/// lookup of its key finds.
pub proof fn lemma_lookup_at<V>(entries: Seq<(Seq<char>, V)>, i: int)
    requires
        distinct_keys(entries),
        0 <= i < entries.len(),
    ensures
        has_key(entries, entries[i].0),
        position(entries, entries[i].0) == i,
        lookup(entries, entries[i].0) == Some(entries[i].1),
{
    let found = position(entries, entries[i].0);
    assert(found == i) by {
        if found != i {
            assert(entries[found].0 == entries[i].0);
        }
    }
}

/// The place of `key` among the keys of `entries`, searched from the front.
pub fn find_key<V>(entries: &Vec<(String, V)>, key: &str) -> (found: Option<usize>)
    ensures
        match found {
            Some(i) => i < entries.len() && entries[i as int].0@ == key@,
            None => forall|j: int| 0 <= j < entries.len() ==> (#[trigger] entries[j]).0@ != key@,
        },
{
    let mut i: usize = 0;
    while i < entries.len()
        invariant
            i <= entries.len(),
            forall|j: int| 0 <= j < i ==> (#[trigger] entries[j]).0@ != key@,
        decreases entries.len() - i,
    {
        if *entries[i].0.as_str() == *key {
            return Some(i);
        }
        i += 1;
    }
    None
}

/// Replacing the value of one entry keeps the keys distinct and every key
/// present.
pub proof fn lemma_update_keeps_keys<V>(entries: Seq<(Seq<char>, V)>, at: int, value: V)
    requires
        distinct_keys(entries),
        0 <= at < entries.len(),
    ensures
        distinct_keys(entries.update(at, (entries[at].0, value))),
        forall|key: Seq<char>|
            has_key(entries, key) <==> has_key(entries.update(at, (entries[at].0, value)), key),
{
    let after = entries.update(at, (entries[at].0, value));
    assert forall|key: Seq<char>| has_key(entries, key) <==> has_key(after, key) by {
        if has_key(entries, key) {
            let i = position(entries, key);
            assert(after[i].0 == key);
        }
        if has_key(after, key) {
            let i = position(after, key);
            assert(entries[i].0 == key);
        }
    }
}

/// Removing one entry keeps the keys distinct and every other key present.
pub proof fn lemma_remove_keeps_keys<V>(entries: Seq<(Seq<char>, V)>, at: int, key: Seq<char>)
    requires
        distinct_keys(entries),
        0 <= at < entries.len(),
        has_key(entries, key),
        entries[at].0 != key,
    ensures
        distinct_keys(entries.remove(at)),
        has_key(entries.remove(at), key),
{
    let after = entries.remove(at);
    let p = position(entries, key);
    let q = if p < at { p } else { p - 1 };
    assert(after[q] == entries[p]);
}

/// A lookup in a table with one more entry at its end.
pub proof fn lemma_lookup_push<V>(
    entries: Seq<(Seq<char>, V)>,
    entry: (Seq<char>, V),
    key: Seq<char>,
)
    requires
        distinct_keys(entries.push(entry)),
    ensures
        distinct_keys(entries),
        !has_key(entries, entry.0),
        lookup(entries.push(entry), key) == if entry.0 == key {
            Some(entry.1)
        } else {
            lookup(entries, key)
        },
{
    let longer = entries.push(entry);
    let last = entries.len() as int;
    assert(longer[last] == entry);
    assert forall|i: int, j: int| 0 <= i < j < entries.len() implies entries[i].0
        != entries[j].0 by {
        assert(longer[i] == entries[i] && longer[j] == entries[j]);
    }
    if has_key(entries, entry.0) {
        let i = position(entries, entry.0);
        assert(longer[i] == entries[i]);
    }
    if entry.0 != key && has_key(entries, key) {
        lemma_lookup_at(longer, position(entries, key));
    }
}

} // verus!
