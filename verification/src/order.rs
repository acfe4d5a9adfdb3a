//! The keys of a hash map as a vector, and a vector of keys in ascending order.

use std::collections::HashMap;
use vstd::prelude::*;

verus! {

broadcast use vstd::std_specs::hash::group_hash_axioms;

/// `keys` holds its elements in strictly ascending order.
pub open spec fn ascending(keys: Seq<u16>) -> bool {
    forall|i: int, j: int| 0 <= i < j < keys.len() ==> keys[i] < keys[j]
}

/// The keys of `map`, each once, in no particular order.
pub(crate) fn keys_of(map: &HashMap<u16, String>) -> (keys: Vec<u16>)
    ensures
        keys@.no_duplicates(),
        keys@.to_set() == map@.dom(),
{
    let mut keys: Vec<u16> = Vec::new();
    for key in it: map.keys()
        invariant
            it.seq().no_duplicates(),
            it.seq().unref().to_set() == map@.dom(),
            keys@ == it.seq().unref().take(it.index()),
            it.index() == it.seq().len() ==> keys@ == it.seq().unref(),
    {
        keys.push(*key);
        assert(keys@ =~= it.seq().unref().take(it.index() + 1));
    }
    keys
}

/// The elements of `keys` in ascending order.
pub(crate) fn sort_ascending(keys: Vec<u16>) -> (sorted: Vec<u16>)
    requires
        keys@.no_duplicates(),
    ensures
        ascending(sorted@),
        sorted@.to_set() == keys@.to_set(),
{
    let mut sorted: Vec<u16> = Vec::new();
    let mut next: usize = 0;
    while next < keys.len()
        invariant
            next <= keys.len(),
            keys@.no_duplicates(),
            ascending(sorted@),
            sorted@.to_set() == keys@.take(next as int).to_set(),
        decreases keys.len() - next,
    {
        let key: u16 = keys[next];
        let mut at: usize = 0;
        while at < sorted.len() && sorted[at] < key
            invariant
                at <= sorted.len(),
                forall|i: int| 0 <= i < at ==> sorted@[i] < key,
            decreases sorted.len() - at,
        {
            at = at + 1;
        }
        proof {
            let seen = keys@.take(next as int);
            assert(sorted@.to_set().contains(key) <==> sorted@.contains(key));
            assert(seen.to_set().contains(key) <==> seen.contains(key));
            lemma_insert_to_set(sorted@, at as int, key);
            lemma_insert_to_set(seen, next as int, key);
            assert(seen.insert(next as int, key) =~= keys@.take(next + 1));
        }
        sorted.insert(at, key);
        next = next + 1;
    }
    assert(keys@.take(next as int) =~= keys@);
    sorted
}

/// Putting `x` into `s` at any place adds `x`, and nothing else, to its elements.
proof fn lemma_insert_to_set(s: Seq<u16>, at: int, x: u16)
    requires
        0 <= at <= s.len(),
    ensures
        s.insert(at, x).to_set() == s.to_set().insert(x),
{
    let grown = s.insert(at, x);
    assert(grown[at] == x);
    assert forall|y: u16| s.contains(y) implies grown.contains(y) by {
        let i = choose|i: int| 0 <= i < s.len() && s[i] == y;
        assert(grown[if i < at { i } else { i + 1 }] == y);
    }
    assert forall|y: u16| grown.contains(y) && y != x implies s.contains(y) by {
        let i = choose|i: int| 0 <= i < grown.len() && grown[i] == y;
        assert(s[if i < at { i } else { i - 1 }] == y);
    }
    assert(grown.to_set() =~= s.to_set().insert(x));
}

} // verus!
