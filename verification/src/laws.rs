//! Laws of the hash table, stated over the map that a table stands for.

use crate::hash_table::value_of;
use crate::slots::distinct_keys;
use vstd::prelude::*;

verus! {

/// One change to a table: an entry stored under a key, or a key removed.
pub enum Change<K, V> {
    Stored(K, V),
    Removed(K),
}

impl<K, V> Change<K, V> {
    /// The key that the change is about.
    pub open spec fn key(self) -> K {
        match self {
            Change::Stored(key, _) => key,
            Change::Removed(key) => key,
        }
    }
}

/// The table after `changes` were made to it, one after the other.
pub open spec fn changed<K, V>(table: Map<K, V>, changes: Seq<Change<K, V>>) -> Map<K, V>
    decreases changes.len(),
{
    if changes.len() == 0 {
        table
    } else {
        let earlier = changed(table, changes.drop_last());
        match changes.last() {
            Change::Stored(key, value) => earlier.insert(key, value),
            Change::Removed(key) => earlier.remove(key),
        }
    }
}

/// The table that holds `entries`, stored one after the other into an empty
/// table.
pub open spec fn stored_all<K, V>(entries: Seq<(K, V)>) -> Map<K, V>
    decreases entries.len(),
{
    if entries.len() == 0 {
        Map::empty()
    } else {
        stored_all(entries.drop_last()).insert(entries.last().0, entries.last().1)
    }
}

/// A lookup finds the value that was stored under its key, whatever was
/// stored or removed under other keys since.
pub proof fn law_insert_then_get<K, V>(
    table: Map<K, V>,
    key: K,
    value: V,
    later: Seq<Change<K, V>>,
)
    requires
        forall|i: int| 0 <= i < later.len() ==> (#[trigger] later[i]).key() != key,
    ensures
        value_of(changed(table.insert(key, value), later), key) == Some(value),
    decreases later.len(),
{
    if later.len() > 0 {
        let earlier = later.drop_last();
        assert forall|i: int| 0 <= i < earlier.len() implies (#[trigger] earlier[i]).key() != key by {
            assert(earlier[i] == later[i]);
        }
        law_insert_then_get(table, key, value, earlier);
        assert(later.last().key() != key);
    }
}

/// Storing twice under one key: the second insert is handed the first value,
/// and the table then holds the second value and no trace of the first.
pub proof fn law_second_insert_replaces<K, V>(table: Map<K, V>, key: K, first: V, second: V)
    ensures
        value_of(table.insert(key, first), key) == Some(first),
        value_of(table.insert(key, first).insert(key, second), key) == Some(second),
        table.insert(key, first).insert(key, second) == table.insert(key, second),
{
    assert(table.insert(key, first).insert(key, second) =~= table.insert(key, second));
}

/// Entries stored under keys that all differ make a table of as many
/// entries, and the table holds exactly their keys.
pub proof fn law_len_counts_distinct_keys<K, V>(entries: Seq<(K, V)>)
    requires
        distinct_keys(entries),
    ensures
        stored_all(entries).dom().finite(),
        stored_all(entries).len() == entries.len(),
        forall|key: K|
            stored_all(entries).contains_key(key) <==> exists|j: int|
                0 <= j < entries.len() && (#[trigger] entries[j]).0 == key,
    decreases entries.len(),
{
    if entries.len() > 0 {
        let earlier = entries.drop_last();
        let last = entries.last();
        assert forall|a: int, b: int| 0 <= a < b < earlier.len() implies (#[trigger] earlier[a]).0
            != (#[trigger] earlier[b]).0 by {
            assert(earlier[a] == entries[a] && earlier[b] == entries[b]);
        }
        law_len_counts_distinct_keys(earlier);
        assert(!stored_all(earlier).contains_key(last.0)) by {
            if stored_all(earlier).contains_key(last.0) {
                let j = choose|j: int| 0 <= j < earlier.len() && (#[trigger] earlier[j]).0 == last.0;
                assert(entries[j].0 != entries[entries.len() - 1].0);
            }
        }
        assert forall|key: K|
            stored_all(entries).contains_key(key) <==> exists|j: int|
                0 <= j < entries.len() && (#[trigger] entries[j]).0 == key by {
            if stored_all(entries).contains_key(key) {
                if key == last.0 {
                    assert(entries[entries.len() - 1].0 == key);
                } else {
                    let j = choose|j: int| 0 <= j < earlier.len() && (#[trigger] earlier[j]).0 == key;
                    assert(entries[j].0 == key);
                }
            }
            if exists|j: int| 0 <= j < entries.len() && (#[trigger] entries[j]).0 == key {
                let j = choose|j: int| 0 <= j < entries.len() && (#[trigger] entries[j]).0 == key;
                if j < earlier.len() {
                    assert(earlier[j].0 == key);
                }
            }
        }
    }
}

/// Removing a key that the table holds leaves one entry fewer.
pub proof fn law_remove_decrements_len<K, V>(table: Map<K, V>, key: K)
    requires
        table.dom().finite(),
        table.contains_key(key),
    ensures
        table.remove(key).len() == table.len() - 1,
{
}

/// Removing a key that the table does not hold yields nothing and leaves the
/// table, and so its length, as it was.
pub proof fn law_remove_absent<K, V>(table: Map<K, V>, key: K)
    requires
        !table.contains_key(key),
    ensures
        value_of(table, key) is None,
        table.remove(key) == table,
        table.remove(key).len() == table.len(),
{
    assert(table.remove(key) =~= table);
}

/// A removed key is no longer in the table.
pub proof fn law_removed_key_is_absent<K, V>(table: Map<K, V>, key: K)
    ensures
        !table.remove(key).contains_key(key),
        value_of(table.remove(key), key) is None,
{
}

} // verus!
