//! Association lists: the first entry for a key is the one that counts, and an
//! entry is added only for a key that has none.
use vstd::prelude::*;

verus! {

/// The value of the first entry for `key`.
pub open spec fn assoc<K, V>(entries: Seq<(K, V)>, key: K) -> Option<V>
    decreases entries.len(),
{
    if entries.len() == 0 {
        None
    } else if entries[0].0 == key {
        Some(entries[0].1)
    } else {
        assoc(entries.skip(1), key)
    }
}

/// `entries` with `(key, value)` added at the end unless `key` already has an entry.
pub open spec fn or_insert<K, V>(entries: Seq<(K, V)>, key: K, value: V) -> Seq<(K, V)> {
    if assoc(entries, key) is Some {
        entries
    } else {
        entries.push((key, value))
    }
}

/// Adding an entry for a new key gives that key its value and leaves every
/// other key as it was.
pub proof fn lemma_assoc_push<K, V>(entries: Seq<(K, V)>, key: K, value: V, other: K)
    requires
        assoc(entries, key) is None,
    ensures
        assoc(entries.push((key, value)), key) == Some(value),
        other != key ==> assoc(entries.push((key, value)), other) == assoc(entries, other),
    decreases entries.len(),
{
    if entries.len() > 0 {
        assert(entries.push((key, value)).skip(1) =~= entries.skip(1).push((key, value)));
        lemma_assoc_push(entries.skip(1), key, value, other);
    } else {
        let e = Seq::<(K, V)>::empty();
        assert(entries.push((key, value)).skip(1) =~= e);
        assert(assoc(e, other) is None);
    }
}

/// After `or_insert`, the key has an entry: the earlier one if there was one,
/// else the new value; other keys are unchanged.
pub proof fn lemma_or_insert<K, V>(entries: Seq<(K, V)>, key: K, value: V, other: K)
    ensures
        assoc(or_insert(entries, key, value), key) == (match assoc(entries, key) {
            Some(v) => Some(v),
            None => Some(value),
        }),
        other != key ==> assoc(or_insert(entries, key, value), other) == assoc(entries, other),
{
    if assoc(entries, key) is None {
        lemma_assoc_push(entries, key, value, other);
    }
}

} // verus!
