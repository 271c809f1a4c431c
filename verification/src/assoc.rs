//! Lists of keys and values read as a map.
//!
//! The presence table keeps its rows in vectors. `pairing` is the map that
//! such a pair of lists stands for, and the lemmas say what pushing,
//! replacing and removing a row do to that map.

use vstd::prelude::*;

verus! {

/// The map that takes each key to the value at the key's place.
pub open spec fn pairing<K, V>(keys: Seq<K>, values: Seq<V>) -> Map<K, V> {
    Map::new(|key: K| keys.contains(key), |key: K| values[keys.index_of(key)])
}

/// Where no key occurs twice, the key at `i` is taken to the value at `i`.
pub proof fn lemma_pairing_at<K, V>(keys: Seq<K>, values: Seq<V>, i: int)
    requires
        keys.no_duplicates(),
        keys.len() == values.len(),
        0 <= i < keys.len(),
    ensures
        pairing(keys, values).contains_key(keys[i]),
        pairing(keys, values)[keys[i]] == values[i],
{
    assert(keys.contains(keys[i]));
    assert(keys.index_of(keys[i]) == i);
}

/// The keys of the map are as many as the list's, where none occurs twice.
pub proof fn lemma_pairing_len<K, V>(keys: Seq<K>, values: Seq<V>)
    requires
        keys.no_duplicates(),
    ensures
        pairing(keys, values).dom().finite(),
        pairing(keys, values).dom().len() == keys.len(),
{
    keys.unique_seq_to_set();
    assert(pairing(keys, values).dom() =~= keys.to_set());
}

/// A row with a new key adds that key to the map.
pub proof fn lemma_pairing_push<K, V>(keys: Seq<K>, values: Seq<V>, key: K, value: V)
    requires
        keys.no_duplicates(),
        keys.len() == values.len(),
        !keys.contains(key),
    ensures
        keys.push(key).no_duplicates(),
        pairing(keys.push(key), values.push(value)) == pairing(keys, values).insert(key, value),
{
    let keys2 = keys.push(key);
    let values2 = values.push(value);
    assert(keys2.no_duplicates()) by {
        assert forall|i: int, j: int|
            0 <= i < keys2.len() && 0 <= j < keys2.len() && i != j implies keys2[i] != keys2[j] by {
            if i < keys.len() {
                assert(keys.contains(keys[i]));
            }
            if j < keys.len() {
                assert(keys.contains(keys[j]));
            }
        }
    }
    assert forall|k: K| #[trigger] pairing(keys2, values2).contains_key(k) <==> pairing(
        keys,
        values,
    ).insert(key, value).contains_key(k) by {
        if keys2.contains(k) {
            let i = keys2.index_of(k);
            if i < keys.len() {
                assert(keys[i] == k);
            }
        }
        if keys.contains(k) {
            let i = keys.index_of(k);
            assert(keys2[i] == k);
        }
        if k == key {
            assert(keys2[keys.len() as int] == k);
        }
    }
    assert forall|k: K| #[trigger] pairing(keys2, values2).contains_key(k) implies pairing(
        keys2,
        values2,
    )[k] == pairing(keys, values).insert(key, value)[k] by {
        let i = keys2.index_of(k);
        lemma_pairing_at(keys2, values2, i);
        if i < keys.len() {
            assert(keys[i] == k);
            lemma_pairing_at(keys, values, i);
        }
    }
    assert(pairing(keys2, values2) =~= pairing(keys, values).insert(key, value));
}

/// A new value in the row at `i` replaces what the key at `i` is taken to.
pub proof fn lemma_pairing_update<K, V>(keys: Seq<K>, values: Seq<V>, i: int, value: V)
    requires
        keys.no_duplicates(),
        keys.len() == values.len(),
        0 <= i < keys.len(),
    ensures
        pairing(keys, values.update(i, value)) == pairing(keys, values).insert(keys[i], value),
{
    let values2 = values.update(i, value);
    assert(keys.contains(keys[i]));
    assert forall|k: K| #[trigger] pairing(keys, values2).contains_key(k) implies pairing(
        keys,
        values2,
    )[k] == pairing(keys, values).insert(keys[i], value)[k] by {
        let j = keys.index_of(k);
        lemma_pairing_at(keys, values2, j);
        lemma_pairing_at(keys, values, j);
    }
    assert(pairing(keys, values2) =~= pairing(keys, values).insert(keys[i], value));
}

/// Without the row at `i` the map lacks the key at `i`, and nothing else.
pub proof fn lemma_pairing_remove<K, V>(keys: Seq<K>, values: Seq<V>, i: int)
    requires
        keys.no_duplicates(),
        keys.len() == values.len(),
        0 <= i < keys.len(),
    ensures
        keys.remove(i).no_duplicates(),
        pairing(keys.remove(i), values.remove(i)) == pairing(keys, values).remove(keys[i]),
{
    let keys2 = keys.remove(i);
    let values2 = values.remove(i);
    assert(keys2.no_duplicates()) by {
        assert forall|a: int, b: int|
            0 <= a < keys2.len() && 0 <= b < keys2.len() && a != b implies keys2[a] != keys2[b] by {
            let a0 = if a < i { a } else { a + 1 };
            let b0 = if b < i { b } else { b + 1 };
            assert(keys2[a] == keys[a0] && keys2[b] == keys[b0]);
        }
    }
    assert forall|k: K| #[trigger] pairing(keys2, values2).contains_key(k) <==> pairing(
        keys,
        values,
    ).remove(keys[i]).contains_key(k) by {
        if keys2.contains(k) {
            let a = keys2.index_of(k);
            let a0 = if a < i { a } else { a + 1 };
            assert(keys[a0] == k);
        }
        if keys.contains(k) && k != keys[i] {
            let a0 = keys.index_of(k);
            let a = if a0 < i { a0 } else { a0 - 1 };
            assert(keys2[a] == k);
        }
    }
    assert forall|k: K| #[trigger] pairing(keys2, values2).contains_key(k) implies pairing(
        keys2,
        values2,
    )[k] == pairing(keys, values).remove(keys[i])[k] by {
        let a = keys2.index_of(k);
        let a0 = if a < i { a } else { a + 1 };
        assert(keys[a0] == k);
        lemma_pairing_at(keys2, values2, a);
        lemma_pairing_at(keys, values, a0);
    }
    assert(pairing(keys2, values2) =~= pairing(keys, values).remove(keys[i]));
}

} // verus!
