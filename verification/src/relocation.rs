//! What a resize does to the entries of a table, and when it keeps them.

use crate::key::HashKey;
use crate::slot_laws::{lemma_slot_index_in_range, lemma_value_in_found, lemma_value_in_witness};
use crate::slots::{
    all_occupied, consistent, contents, destination, distinct_keys, empty_slots, lemma_position_of_absent,
    lookup, relocated, settled, slot_index, value_in,
};
use vstd::prelude::*;

verus! {

/// The chains of `slots` can move to `capacity` slots without loss: within a
/// chain every key selects the slot that the first key selects, and no two
/// chains go to one slot.
pub open spec fn moves_intact<K: HashKey, V>(slots: Seq<Seq<(K, V)>>, capacity: nat) -> bool {
    &&& forall|i: int, j: int|
        0 <= i < slots.len() && 0 <= j < slots[i].len() ==> slot_index(
            (#[trigger] slots[i][j]).0.hash_spec(),
            capacity,
        ) == destination(slots[i], capacity)
    &&& forall|a: int, b: int|
        0 <= a < b < slots.len() ==> destination(#[trigger] slots[a], capacity) != destination(
            #[trigger] slots[b],
            capacity,
        )
}

/// The last of the first `n` chains of `moved` that goes to slot `j` among
/// `capacity` slots; `-1` where none of them does.
pub open spec fn last_arrival<K: HashKey, V>(
    moved: Seq<Seq<(K, V)>>,
    capacity: nat,
    n: nat,
    j: int,
) -> int
    decreases n,
{
    if n == 0 {
        -1
    } else if destination(moved[n - 1], capacity) == j {
        n - 1
    } else {
        last_arrival(moved, capacity, (n - 1) as nat, j)
    }
}

/// `last_arrival` names a chain that goes to `j`, and no later one does.
pub proof fn lemma_last_arrival<K: HashKey, V>(
    moved: Seq<Seq<(K, V)>>,
    capacity: nat,
    n: nat,
    j: int,
)
    ensures
        -1 <= last_arrival(moved, capacity, n, j) < n,
        last_arrival(moved, capacity, n, j) >= 0 ==> destination(
            moved[last_arrival(moved, capacity, n, j)],
            capacity,
        ) == j,
        forall|i: int|
            last_arrival(moved, capacity, n, j) < i < n ==> destination(
                #[trigger] moved[i],
                capacity,
            ) != j,
    decreases n,
{
    if n > 0 && destination(moved[n - 1], capacity) != j {
        lemma_last_arrival(moved, capacity, (n - 1) as nat, j);
    }
}

/// After chains have settled, a slot holds the last chain that went to it,
/// or what it held before where none did.
pub proof fn lemma_settled_slot<K: HashKey, V>(
    target: Seq<Seq<(K, V)>>,
    moved: Seq<Seq<(K, V)>>,
    n: nat,
    j: int,
)
    requires
        n <= moved.len(),
        n > 0 ==> target.len() > 0,
        0 <= j < target.len(),
    ensures
        settled(target, moved, n).len() == target.len(),
        settled(target, moved, n)[j] == (if last_arrival(moved, target.len(), n, j) >= 0 {
            moved[last_arrival(moved, target.len(), n, j)]
        } else {
            target[j]
        }),
    decreases n,
{
    if n > 0 {
        lemma_settled_slot(target, moved, (n - 1) as nat, j);
        lemma_slot_index_in_range(moved[n - 1][0].0.hash_spec(), target.len());
    }
}

/// What a slot holds after a resize: the last old chain that went to it, or
/// nothing.
pub proof fn lemma_relocated_slot<K: HashKey, V>(slots: Seq<Seq<(K, V)>>, capacity: nat, j: int)
    requires
        slots.len() > 0 ==> capacity > 0,
        0 <= j < capacity,
    ensures
        relocated(slots, capacity).len() == capacity,
        relocated(slots, capacity)[j] == (if last_arrival(slots, capacity, slots.len(), j) >= 0 {
            slots[last_arrival(slots, capacity, slots.len(), j)]
        } else {
            Seq::<(K, V)>::empty()
        }),
{
    lemma_settled_slot(empty_slots::<K, V>(capacity), slots, slots.len(), j);
}

/// In consistent slots, a lookup of the key of any entry finds that entry.
pub proof fn lemma_entry_is_found<K: HashKey, V>(slots: Seq<Seq<(K, V)>>, i: int, j: int)
    requires
        consistent(slots),
        0 <= i < slots.len(),
        0 <= j < slots[i].len(),
    ensures
        lookup(slots, slots[i][j].0) == Some(slots[i][j].1),
{
    assert(slot_index(slots[i][j].0.hash_spec(), slots.len()) == i);
    assert(distinct_keys(slots[i]));
    lemma_value_in_found(slots[i], j);
}

/// In consistent slots, a key occurs in no slot but the one that its hash
/// selects.
pub proof fn lemma_key_elsewhere_is_absent<K: HashKey, V>(
    slots: Seq<Seq<(K, V)>>,
    i: int,
    key: K,
)
    requires
        consistent(slots),
        0 <= i < slots.len(),
        slot_index(key.hash_spec(), slots.len()) != i,
    ensures
        value_in(slots[i], key) is None,
{
    if value_in(slots[i], key) is Some {
        let j = lemma_value_in_witness(slots[i], key);
        assert(slot_index(slots[i][j].0.hash_spec(), slots.len()) == i);
    }
}

/// A resize keeps every entry where the chains can move intact: the new
/// slots are consistent, and every lookup finds what it found before.
pub proof fn lemma_resize_keeps_entries<K: HashKey, V>(slots: Seq<Seq<(K, V)>>, capacity: nat)
    requires
        consistent(slots),
        all_occupied(slots),
        capacity > 0,
        moves_intact(slots, capacity),
    ensures
        relocated(slots, capacity).len() == capacity,
        consistent(relocated(slots, capacity)),
        contents(relocated(slots, capacity)) == contents(slots),
{
    let after = relocated(slots, capacity);
    lemma_relocated_slot(slots, capacity, 0);
    assert forall|key: K| #[trigger] lookup(after, key) == lookup(slots, key) by {
        let d = slot_index(key.hash_spec(), capacity);
        lemma_slot_index_in_range(key.hash_spec(), capacity);
        lemma_relocated_slot(slots, capacity, d);
        lemma_last_arrival(slots, capacity, slots.len(), d);
        let arrived = last_arrival(slots, capacity, slots.len(), d);
        if slots.len() == 0 {
            lemma_position_of_absent(after[d], key);
        } else {
            let i = slot_index(key.hash_spec(), slots.len());
            lemma_slot_index_in_range(key.hash_spec(), slots.len());
            if lookup(slots, key) is Some {
                let j = lemma_value_in_witness(slots[i], key);
                assert(slot_index(slots[i][j].0.hash_spec(), capacity) == destination(
                    slots[i],
                    capacity,
                ));
                if arrived < i {
                    assert(destination(slots[i], capacity) != d);
                } else if arrived > i {
                    assert(destination(slots[i], capacity) != destination(
                        slots[arrived],
                        capacity,
                    ));
                }
            } else if arrived >= 0 {
                if arrived != i {
                    lemma_key_elsewhere_is_absent(slots, arrived, key);
                }
            } else {
                lemma_position_of_absent(after[d], key);
            }
        }
    }
    assert(contents(after) =~= contents(slots));
    assert forall|d: int| 0 <= d < after.len() implies distinct_keys(#[trigger] after[d]) by {
        lemma_relocated_slot(slots, capacity, d);
        lemma_last_arrival(slots, capacity, slots.len(), d);
    }
    assert forall|d: int, b: int| 0 <= d < after.len() && 0 <= b < after[d].len() implies slot_index(
        (#[trigger] after[d][b]).0.hash_spec(),
        after.len(),
    ) == d by {
        lemma_relocated_slot(slots, capacity, d);
        lemma_last_arrival(slots, capacity, slots.len(), d);
        let arrived = last_arrival(slots, capacity, slots.len(), d);
        assert(after[d][b] == slots[arrived][b]);
    }
}

/// A resize loses an entry where the chains cannot move intact: some key
/// that a lookup found before is found no more.
pub proof fn lemma_resize_loses_entry<K: HashKey, V>(slots: Seq<Seq<(K, V)>>, capacity: nat) -> (lost:
    K)
    requires
        consistent(slots),
        all_occupied(slots),
        capacity > 0,
        !moves_intact(slots, capacity),
    ensures
        lookup(slots, lost) is Some,
        lookup(relocated(slots, capacity), lost) is None,
{
    let after = relocated(slots, capacity);
    let strays = exists|i: int, j: int|
        0 <= i < slots.len() && 0 <= j < slots[i].len() && slot_index(
            (#[trigger] slots[i][j]).0.hash_spec(),
            capacity,
        ) != destination(slots[i], capacity);
    // The slot that the lost key lived in.
    let home = if strays {
        let (i, j) = choose|i: int, j: int|
            0 <= i < slots.len() && 0 <= j < slots[i].len() && slot_index(
                (#[trigger] slots[i][j]).0.hash_spec(),
                capacity,
            ) != destination(slots[i], capacity);
        (i, j)
    } else {
        let (a, b) = choose|a: int, b: int|
            0 <= a < b < slots.len() && destination(#[trigger] slots[a], capacity) == destination(
                #[trigger] slots[b],
                capacity,
            );
        (a, 0int)
    };
    let i = home.0;
    let j = home.1;
    assert(0 <= i < slots.len() && 0 <= j < slots[i].len());
    let lost = slots[i][j].0;
    lemma_entry_is_found(slots, i, j);
    let d = slot_index(lost.hash_spec(), capacity);
    lemma_slot_index_in_range(lost.hash_spec(), capacity);
    lemma_relocated_slot(slots, capacity, d);
    lemma_last_arrival(slots, capacity, slots.len(), d);
    let arrived = last_arrival(slots, capacity, slots.len(), d);
    if arrived >= 0 {
        assert(arrived != i) by {
            if strays {
            } else {
                let (a, b) = choose|a: int, b: int|
                    0 <= a < b < slots.len() && destination(#[trigger] slots[a], capacity)
                        == destination(#[trigger] slots[b], capacity);
                assert(destination(slots[b], capacity) == d);
            }
        }
        lemma_key_elsewhere_is_absent(slots, arrived, lost);
    } else {
        lemma_position_of_absent(after[d], lost);
    }
    lost
}

} // verus!
