//! Lists that stand for maps: a list of entries in which no key occurs
//! twice, read as the map from each key to its entry.

use vstd::prelude::*;

verus! {

/// The map that a list of keys and the list of their entries stand for.
pub open spec fn table<K, V>(keys: Seq<K>, entries: Seq<V>) -> Map<K, V> {
    Map::new(|k: K| keys.contains(k), |k: K| entries[keys.index_of(k)])
}

/// In a list without duplicates a key is found where it stands.
pub proof fn lemma_index_of<K>(keys: Seq<K>, i: int)
    requires
        keys.no_duplicates(),
        0 <= i < keys.len(),
    ensures
        keys.index_of(keys[i]) == i,
        keys.contains(keys[i]),
{
    let j = keys.index_of(keys[i]);
    assert(0 <= j < keys.len() && keys[j] == keys[i]);
}

/// The table maps the key at a place to the entry at that place.
pub proof fn lemma_table_at<K, V>(keys: Seq<K>, entries: Seq<V>, i: int)
    requires
        keys.no_duplicates(),
        0 <= i < keys.len(),
    ensures
        table(keys, entries).contains_key(keys[i]),
        table(keys, entries)[keys[i]] == entries[i],
{
    lemma_index_of(keys, i);
}

/// Appending a new key and its entry inserts the pair into the table.
pub proof fn lemma_table_push<K, V>(keys: Seq<K>, entries: Seq<V>, k: K, v: V)
    requires
        keys.no_duplicates(),
        keys.len() == entries.len(),
        !keys.contains(k),
    ensures
        keys.push(k).no_duplicates(),
        table(keys.push(k), entries.push(v)) == table(keys, entries).insert(k, v),
{
    let grown = keys.push(k);
    assert forall|i: int, j: int| 0 <= i < grown.len() && 0 <= j < grown.len() && i != j implies grown[i]
        != grown[j] by {
        if i < keys.len() {
            assert(keys.contains(grown[i]));
        }
        if j < keys.len() {
            assert(keys.contains(grown[j]));
        }
    }
    let left = table(grown, entries.push(v));
    let right = table(keys, entries).insert(k, v);
    assert forall|x: K| left.contains_key(x) <==> right.contains_key(x) by {
        if grown.contains(x) {
            let i = choose|i: int| 0 <= i < grown.len() && grown[i] == x;
            if i < keys.len() {
                assert(keys[i] == x);
            }
        }
        if keys.contains(x) {
            let i = choose|i: int| 0 <= i < keys.len() && keys[i] == x;
            assert(grown[i] == x);
        }
        assert(grown[keys.len() as int] == k);
    }
    assert forall|x: K| left.contains_key(x) implies left[x] == right[x] by {
        let i = grown.index_of(x);
        assert(0 <= i < grown.len() && grown[i] == x);
        lemma_index_of(grown, i);
        if i < keys.len() {
            lemma_index_of(keys, i);
        }
    }
    assert(left =~= right);
}

/// Replacing the entry at a place replaces the entry of the key there.
pub proof fn lemma_table_update<K, V>(keys: Seq<K>, entries: Seq<V>, i: int, v: V)
    requires
        keys.no_duplicates(),
        keys.len() == entries.len(),
        0 <= i < keys.len(),
    ensures
        table(keys, entries.update(i, v)) == table(keys, entries).insert(keys[i], v),
{
    let left = table(keys, entries.update(i, v));
    let right = table(keys, entries).insert(keys[i], v);
    lemma_index_of(keys, i);
    assert forall|x: K| left.contains_key(x) implies left[x] == right[x] by {
        let j = keys.index_of(x);
        assert(0 <= j < keys.len() && keys[j] == x);
    }
    assert(left =~= right);
}

/// Taking the key and the entry at a place out removes the key from the
/// table.
pub proof fn lemma_table_remove<K, V>(keys: Seq<K>, entries: Seq<V>, i: int)
    requires
        keys.no_duplicates(),
        keys.len() == entries.len(),
        0 <= i < keys.len(),
    ensures
        keys.remove(i).no_duplicates(),
        table(keys.remove(i), entries.remove(i)) == table(keys, entries).remove(keys[i]),
{
    let fewer = keys.remove(i);
    assert forall|a: int, b: int| 0 <= a < fewer.len() && 0 <= b < fewer.len() && a != b implies fewer[a]
        != fewer[b] by {
        let a2 = if a < i {
            a
        } else {
            a + 1
        };
        let b2 = if b < i {
            b
        } else {
            b + 1
        };
        assert(fewer[a] == keys[a2] && fewer[b] == keys[b2]);
    }
    let left = table(fewer, entries.remove(i));
    let right = table(keys, entries).remove(keys[i]);
    assert forall|x: K| left.contains_key(x) <==> right.contains_key(x) by {
        if fewer.contains(x) {
            let a = choose|a: int| 0 <= a < fewer.len() && fewer[a] == x;
            let a2 = if a < i {
                a
            } else {
                a + 1
            };
            assert(keys[a2] == x);
        }
        if keys.contains(x) && x != keys[i] {
            let a2 = choose|a2: int| 0 <= a2 < keys.len() && keys[a2] == x;
            let a = if a2 < i {
                a2
            } else {
                a2 - 1
            };
            assert(fewer[a] == x);
        }
    }
    assert forall|x: K| left.contains_key(x) implies left[x] == right[x] by {
        let a = fewer.index_of(x);
        assert(0 <= a < fewer.len() && fewer[a] == x);
        let a2 = if a < i {
            a
        } else {
            a + 1
        };
        assert(keys[a2] == x);
        lemma_index_of(keys, a2);
    }
    assert(left =~= right);
}

} // verus!
