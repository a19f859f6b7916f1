//! Linear lookup in a sequence of keys: the first position that holds a key.

use vstd::prelude::*;

verus! {

/// `i` is the first position of `keys` that holds `key`.
pub open spec fn is_first_at<K>(keys: Seq<K>, key: K, i: int) -> bool {
    &&& 0 <= i < keys.len()
    &&& keys[i] == key
    &&& forall|j: int| 0 <= j < i ==> keys[j] != key
}

/// The first position of `keys` that holds `key`, `None` where none does.
pub open spec fn first_index_of<K>(keys: Seq<K>, key: K) -> Option<int> {
    if exists|i: int| is_first_at(keys, key, i) {
        Some(choose|i: int| is_first_at(keys, key, i))
    } else {
        None
    }
}

/// A first position is the only one.
pub proof fn lemma_found<K>(keys: Seq<K>, key: K, i: int)
    requires
        is_first_at(keys, key, i),
    ensures
        first_index_of(keys, key) == Some(i),
{
    let k = choose|k: int| is_first_at(keys, key, k);
    if k < i {
        assert(keys[k] != key);
    } else if i < k {
        assert(keys[i] != key);
    }
}

/// A key that occurs nowhere has no first position.
pub proof fn lemma_absent<K>(keys: Seq<K>, key: K)
    requires
        forall|j: int| 0 <= j < keys.len() ==> keys[j] != key,
    ensures
        first_index_of(keys, key) is None,
{
}

/// What a lookup tells: the position found is a first one, and after a
/// failed lookup the key occurs nowhere.
pub proof fn lemma_first_index_of<K>(keys: Seq<K>, key: K)
    ensures
        match first_index_of(keys, key) {
            Some(i) => is_first_at(keys, key, i),
            None => forall|j: int| 0 <= j < keys.len() ==> keys[j] != key,
        },
{
    if first_index_of(keys, key) is None {
        assert forall|j: int| 0 <= j < keys.len() implies keys[j] != key by {
            if keys[j] == key {
                lemma_some_first(keys, key, j);
            }
        }
    }
}

/// Where a key occurs at all, it has a first position at or before that
/// occurrence.
pub proof fn lemma_some_first<K>(keys: Seq<K>, key: K, j: int)
    requires
        0 <= j < keys.len(),
        keys[j] == key,
    ensures
        exists|i: int| 0 <= i <= j && is_first_at(keys, key, i),
    decreases j,
{
    if exists|k: int| 0 <= k < j && keys[k] == key {
        let k = choose|k: int| 0 <= k < j && keys[k] == key;
        lemma_some_first(keys, key, k);
    } else {
        assert(is_first_at(keys, key, j));
    }
}

} // verus!
