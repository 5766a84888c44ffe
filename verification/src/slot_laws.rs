//! How storing, removing and counting act on consistent slots.

use crate::key::HashKey;
use crate::slots::{
    consistent, contents, distinct_keys, empty_slots, entry_count, found_below, keys_of,
    lemma_position_of_absent, lemma_position_of_first_match, lookup, occupied_count, position_of,
    slot_index, swap_removed, value_in, with_entry, without_key,
};
use vstd::prelude::*;
use vstd::set_lib::lemma_set_disjoint_lens;

verus! {

/// In a slot without repeated keys, a scan for the key of any entry finds
/// that entry.
pub proof fn lemma_value_in_found<K, V>(slot: Seq<(K, V)>, j: int)
    requires
        distinct_keys(slot),
        0 <= j < slot.len(),
    ensures
        position_of(slot, slot[j].0) == Some(j),
        value_in(slot, slot[j].0) == Some(slot[j].1),
{
    lemma_position_of_first_match(slot, slot[j].0, j);
}

/// A scan that finds a value found it in some entry under the key.
pub proof fn lemma_value_in_witness<K, V>(slot: Seq<(K, V)>, key: K) -> (j: int)
    requires
        value_in(slot, key) is Some,
    ensures
        0 <= j < slot.len(),
        slot[j].0 == key,
        position_of(slot, key) == Some(j),
        value_in(slot, key) == Some(slot[j].1),
{
    position_of(slot, key).unwrap()
}

/// A scan that finds nothing passed no entry under the key.
pub proof fn lemma_value_in_none<K, V>(slot: Seq<(K, V)>, key: K, j: int)
    requires
        distinct_keys(slot),
        value_in(slot, key) is None,
        0 <= j < slot.len(),
    ensures
        slot[j].0 != key,
{
    if slot[j].0 == key {
        lemma_value_in_found(slot, j);
    }
}

/// Overwriting the entry under `key` changes what a scan for `key` finds and
/// nothing else.
pub proof fn lemma_value_in_update<K, V>(slot: Seq<(K, V)>, p: int, key: K, value: V, q: K)
    requires
        distinct_keys(slot),
        0 <= p < slot.len(),
        slot[p].0 == key,
    ensures
        distinct_keys(slot.update(p, (key, value))),
        value_in(slot.update(p, (key, value)), q) == (if q == key {
            Some(value)
        } else {
            value_in(slot, q)
        }),
{
    let after = slot.update(p, (key, value));
    assert forall|a: int, b: int| 0 <= a < b < after.len() implies (#[trigger] after[a]).0
        != (#[trigger] after[b]).0 by {
        assert(after[a].0 == slot[a].0 && after[b].0 == slot[b].0);
    }
    if q == key {
        lemma_value_in_found(after, p);
    } else if value_in(slot, q) is Some {
        let j = lemma_value_in_witness(slot, q);
        lemma_value_in_found(after, j);
    } else {
        assert forall|j: int| 0 <= j < after.len() implies (#[trigger] after[j]).0 != q by {
            lemma_value_in_none(slot, q, j);
        }
        lemma_position_of_absent(after, q);
    }
}

/// Appending an entry under a key that the slot lacks changes what a scan
/// for that key finds and nothing else.
pub proof fn lemma_value_in_push<K, V>(slot: Seq<(K, V)>, key: K, value: V, q: K)
    requires
        distinct_keys(slot),
        value_in(slot, key) is None,
    ensures
        distinct_keys(slot.push((key, value))),
        value_in(slot.push((key, value)), q) == (if q == key {
            Some(value)
        } else {
            value_in(slot, q)
        }),
{
    let after = slot.push((key, value));
    assert forall|a: int, b: int| 0 <= a < b < after.len() implies (#[trigger] after[a]).0
        != (#[trigger] after[b]).0 by {
        if b == slot.len() {
            lemma_value_in_none(slot, key, a);
        } else {
            assert(after[a].0 == slot[a].0 && after[b].0 == slot[b].0);
        }
    }
    if q == key {
        lemma_value_in_found(after, slot.len() as int);
    } else if value_in(slot, q) is Some {
        let j = lemma_value_in_witness(slot, q);
        lemma_value_in_found(after, j);
    } else {
        assert forall|j: int| 0 <= j < after.len() implies (#[trigger] after[j]).0 != q by {
            if j < slot.len() {
                lemma_value_in_none(slot, q, j);
            }
        }
        lemma_position_of_absent(after, q);
    }
}

/// Taking the entry at `p` out of a slot removes its key from what scans
/// find and changes nothing else, although the last entry moves.
pub proof fn lemma_value_in_swap_removed<K, V>(slot: Seq<(K, V)>, p: int, q: K)
    requires
        distinct_keys(slot),
        0 <= p < slot.len(),
    ensures
        distinct_keys(swap_removed(slot, p)),
        value_in(swap_removed(slot, p), q) == (if q == slot[p].0 {
            None
        } else {
            value_in(slot, q)
        }),
{
    let after = swap_removed(slot, p);
    let last = slot.len() - 1;
    // Where each remaining entry came from.
    let origin = |j: int| if j == p { last } else { j };
    assert forall|j: int| 0 <= j < after.len() implies #[trigger] after[j] == slot[origin(j)]
        && 0 <= origin(j) < slot.len() && origin(j) != p by {}
    assert forall|a: int, b: int| 0 <= a < b < after.len() implies (#[trigger] after[a]).0
        != (#[trigger] after[b]).0 by {
        let oa = origin(a);
        let ob = origin(b);
        assert(after[a] == slot[oa] && after[b] == slot[ob]);
        if oa < ob {
            assert(slot[oa].0 != slot[ob].0);
        } else {
            assert(slot[ob].0 != slot[oa].0);
        }
    }
    if q == slot[p].0 {
        assert forall|j: int| 0 <= j < after.len() implies (#[trigger] after[j]).0 != q by {
            let o = origin(j);
            assert(after[j] == slot[o]);
            if o < p {
                assert(slot[o].0 != slot[p].0);
            } else {
                assert(slot[p].0 != slot[o].0);
            }
        }
        lemma_position_of_absent(after, q);
    } else if value_in(slot, q) is Some {
        let j = lemma_value_in_witness(slot, q);
        let moved = if j == last { p } else { j };
        assert(after[moved] == slot[j]);
        lemma_value_in_found(after, moved);
    } else {
        assert forall|j: int| 0 <= j < after.len() implies (#[trigger] after[j]).0 != q by {
            assert(after[j] == slot[origin(j)]);
            lemma_value_in_none(slot, q, origin(j));
        }
        lemma_position_of_absent(after, q);
    }
}

/// A key's slot is one of the slots there are.
pub proof fn lemma_slot_index_in_range(hash: u64, capacity: nat)
    requires
        capacity > 0,
    ensures
        0 <= slot_index(hash, capacity) < capacity,
{
}

/// Storing an entry keeps consistent slots consistent, and acts on their
/// contents as an insert into a map does.
pub proof fn lemma_with_entry<K: HashKey, V>(slots: Seq<Seq<(K, V)>>, key: K, value: V)
    requires
        consistent(slots),
        slots.len() > 0,
    ensures
        with_entry(slots, key, value).len() == slots.len(),
        consistent(with_entry(slots, key, value)),
        contents(with_entry(slots, key, value)) == contents(slots).insert(key, value),
{
    let n = slots.len();
    let i = slot_index(key.hash_spec(), n);
    lemma_slot_index_in_range(key.hash_spec(), n);
    let slot = slots[i];
    let after = with_entry(slots, key, value);
    assert(distinct_keys(slot));
    let p = position_of(slot, key);
    if p is Some {
        let w = lemma_value_in_witness(slot, key);
    }
    assert forall|q: K| #[trigger] lookup(after, q) == (if q == key {
        Some(value)
    } else {
        lookup(slots, q)
    }) by {
        let iq = slot_index(q.hash_spec(), n);
        lemma_slot_index_in_range(q.hash_spec(), n);
        if iq == i {
            if p is Some {
                lemma_value_in_update(slot, p.unwrap(), key, value, q);
            } else {
                lemma_value_in_push(slot, key, value, q);
            }
        }
    }
    assert(contents(after) =~= contents(slots).insert(key, value));
    assert forall|k: int| 0 <= k < after.len() implies distinct_keys(#[trigger] after[k]) by {
        if k == i {
            if p is Some {
                lemma_value_in_update(slot, p.unwrap(), key, value, key);
            } else {
                lemma_value_in_push(slot, key, value, key);
            }
        } else {
            assert(after[k] == slots[k]);
        }
    }
    assert forall|a: int, b: int| 0 <= a < after.len() && 0 <= b < after[a].len() implies slot_index(
        (#[trigger] after[a][b]).0.hash_spec(),
        after.len(),
    ) == a by {
        if a == i && p is Some && b == p.unwrap() {
        } else if a == i && p is None && b == slot.len() {
        } else {
            assert(after[a][b] == slots[a][b]);
        }
    }
}

/// Taking a key out keeps consistent slots consistent, and acts on their
/// contents as a removal from a map does.
pub proof fn lemma_without_key<K: HashKey, V>(slots: Seq<Seq<(K, V)>>, key: K)
    requires
        consistent(slots),
        slots.len() > 0,
    ensures
        without_key(slots, key).len() == slots.len(),
        consistent(without_key(slots, key)),
        contents(without_key(slots, key)) == contents(slots).remove(key),
{
    let n = slots.len();
    let i = slot_index(key.hash_spec(), n);
    lemma_slot_index_in_range(key.hash_spec(), n);
    let slot = slots[i];
    let after = without_key(slots, key);
    assert(distinct_keys(slot));
    let p = position_of(slot, key);
    if p is Some {
        let w = lemma_value_in_witness(slot, key);
        let at = p.unwrap();
        assert forall|q: K| #[trigger] lookup(after, q) == (if q == key {
            None
        } else {
            lookup(slots, q)
        }) by {
            let iq = slot_index(q.hash_spec(), n);
            lemma_slot_index_in_range(q.hash_spec(), n);
            if iq == i {
                lemma_value_in_swap_removed(slot, at, q);
            }
        }
        assert(contents(after) =~= contents(slots).remove(key));
        assert forall|k: int| 0 <= k < after.len() implies distinct_keys(#[trigger] after[k]) by {
            if k == i {
                lemma_value_in_swap_removed(slot, at, key);
            } else {
                assert(after[k] == slots[k]);
            }
        }
        assert forall|a: int, b: int|
            0 <= a < after.len() && 0 <= b < after[a].len() implies slot_index(
            (#[trigger] after[a][b]).0.hash_spec(),
            after.len(),
        ) == a by {
            if a == i {
                let from = if b == at {
                    slot.len() - 1
                } else {
                    b
                };
                assert(after[a][b] == slots[a][from]);
            } else {
                assert(after[a][b] == slots[a][b]);
            }
        }
    } else {
        assert(contents(after) =~= contents(slots).remove(key));
    }
}

/// A slot without repeated keys has as many keys as entries.
pub proof fn lemma_keys_of_len<K, V>(slot: Seq<(K, V)>)
    requires
        distinct_keys(slot),
    ensures
        keys_of(slot).finite(),
        keys_of(slot).len() == slot.len(),
{
    let keys = slot.map_values(|entry: (K, V)| entry.0);
    assert forall|a: int, b: int| 0 <= a < keys.len() && 0 <= b < keys.len() && a != b implies keys[a]
        != keys[b] by {
        if a < b {
            assert(slot[a].0 != slot[b].0);
        } else {
            assert(slot[b].0 != slot[a].0);
        }
    }
    keys.unique_seq_to_set();
    vstd::seq_lib::seq_to_set_is_finite(keys);
}

/// In consistent slots, a key is found exactly if it occurs in the slot that
/// its hash selects.
pub proof fn lemma_found_iff_in_slot<K: HashKey, V>(slots: Seq<Seq<(K, V)>>, key: K)
    requires
        consistent(slots),
        slots.len() > 0,
    ensures
        lookup(slots, key) is Some <==> keys_of(
            slots[slot_index(key.hash_spec(), slots.len())],
        ).contains(key),
{
    lemma_slot_index_in_range(key.hash_spec(), slots.len());
    let slot = slots[slot_index(key.hash_spec(), slots.len())];
    let keys = slot.map_values(|entry: (K, V)| entry.0);
    assert(distinct_keys(slot));
    if lookup(slots, key) is Some {
        let j = lemma_value_in_witness(slot, key);
        assert(keys[j] == key);
    }
    if keys.to_set().contains(key) {
        let j = choose|j: int| 0 <= j < keys.len() && keys[j] == key;
        lemma_value_in_found(slot, j);
    }
}

/// The keys found in the first `n` of consistent slots are as many as the
/// entries of those slots.
pub proof fn lemma_found_below_len<K: HashKey, V>(slots: Seq<Seq<(K, V)>>, n: int)
    requires
        consistent(slots),
        0 <= n <= slots.len(),
        slots.len() > 0,
    ensures
        found_below(slots, n).finite(),
        found_below(slots, n).len() == entry_count(slots.take(n)),
    decreases n,
{
    if n == 0 {
        assert(found_below(slots, n) =~= Set::<K>::empty()) by {
            assert forall|key: K| !found_below(slots, n).contains(key) by {
                lemma_slot_index_in_range(key.hash_spec(), slots.len());
            }
        }
    } else {
        lemma_found_below_len(slots, n - 1);
        let before = found_below(slots, n - 1);
        let here = keys_of(slots[n - 1]);
        lemma_keys_of_len(slots[n - 1]);
        assert forall|key: K| found_below(slots, n).contains(key) <==> before.contains(key)
            || here.contains(key) by {
            lemma_found_iff_in_slot(slots, key);
            if here.contains(key) {
                lemma_key_in_slot_is_placed(slots, n - 1, key);
            }
        }
        assert(found_below(slots, n) =~= before + here);
        assert(before.disjoint(here)) by {
            assert forall|key: K| !(before.contains(key) && here.contains(key)) by {
                if here.contains(key) {
                    lemma_key_in_slot_is_placed(slots, n - 1, key);
                }
            }
        }
        lemma_set_disjoint_lens(before, here);
        assert(slots.take(n).drop_last() =~= slots.take(n - 1));
    }
}

/// A key that occurs in a slot of well-placed slots hashes to that slot.
pub proof fn lemma_key_in_slot_is_placed<K: HashKey, V>(slots: Seq<Seq<(K, V)>>, i: int, key: K)
    requires
        consistent(slots),
        0 <= i < slots.len(),
        keys_of(slots[i]).contains(key),
    ensures
        slot_index(key.hash_spec(), slots.len()) == i,
{
    let keys = slots[i].map_values(|entry: (K, V)| entry.0);
    let j = choose|j: int| 0 <= j < keys.len() && keys[j] == key;
    assert(slots[i][j].0 == key);
}

/// Consistent slots hold as many keys as entries: nothing is stored that a
/// lookup would miss, and nothing is stored twice.
pub proof fn lemma_contents_len<K: HashKey, V>(slots: Seq<Seq<(K, V)>>)
    requires
        consistent(slots),
    ensures
        contents(slots).dom().finite(),
        contents(slots).len() == entry_count(slots),
{
    if slots.len() == 0 {
        assert(contents(slots).dom() =~= Set::<K>::empty());
    } else {
        lemma_found_below_len(slots, slots.len() as int);
        assert(slots.take(slots.len() as int) =~= slots);
        assert(contents(slots).dom() =~= found_below(slots, slots.len() as int)) by {
            assert forall|key: K| #[trigger]
                contents(slots).dom().contains(key) <==> found_below(
                    slots,
                    slots.len() as int,
                ).contains(key) by {
                lemma_slot_index_in_range(key.hash_spec(), slots.len());
            }
        }
    }
}

/// No more slots are occupied than there are slots or entries, and none is
/// occupied exactly if there is no entry.
pub proof fn lemma_occupied_count<K, V>(slots: Seq<Seq<(K, V)>>)
    ensures
        occupied_count(slots) <= slots.len(),
        occupied_count(slots) <= entry_count(slots),
        occupied_count(slots) == 0 <==> entry_count(slots) == 0,
        entry_count(slots) == 0 <==> (forall|i: int|
            0 <= i < slots.len() ==> (#[trigger] slots[i]).len() == 0),
    decreases slots.len(),
{
    if slots.len() > 0 {
        let front = slots.drop_last();
        lemma_occupied_count(front);
        if entry_count(slots) == 0 {
            assert forall|i: int| 0 <= i < slots.len() implies (#[trigger] slots[i]).len() == 0 by {
                if i < front.len() {
                    assert(front[i] == slots[i]);
                }
            }
        }
        if forall|i: int| 0 <= i < slots.len() ==> (#[trigger] slots[i]).len() == 0 {
            assert forall|i: int| 0 <= i < front.len() implies (#[trigger] front[i]).len() == 0 by {
                assert(front[i] == slots[i]);
            }
            assert(slots.last() == slots[slots.len() - 1]);
        }
    }
}

/// Empty slots are consistent and hold nothing.
pub proof fn lemma_empty_slots<K: HashKey, V>(capacity: nat)
    ensures
        consistent(empty_slots::<K, V>(capacity)),
        contents(empty_slots::<K, V>(capacity)) == Map::<K, V>::empty(),
{
    let slots = empty_slots::<K, V>(capacity);
    assert forall|key: K| lookup(slots, key) is None by {
        if capacity > 0 {
            lemma_slot_index_in_range(key.hash_spec(), capacity);
            lemma_position_of_absent(slots[slot_index(key.hash_spec(), capacity)], key);
        }
    }
    assert(contents(slots) =~= Map::<K, V>::empty());
}

} // verus!
