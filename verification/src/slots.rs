//! The slots of a hash table as sequences of entries: the model.

use crate::key::HashKey;
use vstd::prelude::*;

verus! {

/// The slot, among `capacity` slots, that a key with hash `hash` belongs to.
pub open spec fn slot_index(hash: u64, capacity: nat) -> int
    recommends
        capacity > 0,
{
    (hash as usize) as int % (capacity as int)
}

/// `p` is the position of the first entry of `slot` that is stored under `key`.
pub open spec fn is_first_match<K, V>(slot: Seq<(K, V)>, key: K, p: int) -> bool {
    &&& 0 <= p < slot.len()
    &&& slot[p].0 == key
    &&& forall|j: int| 0 <= j < p ==> (#[trigger] slot[j]).0 != key
}

/// The position of the first entry of `slot` stored under `key`, if there is one.
pub open spec fn position_of<K, V>(slot: Seq<(K, V)>, key: K) -> Option<int> {
    if exists|p: int| is_first_match(slot, key, p) {
        Some(choose|p: int| is_first_match(slot, key, p))
    } else {
        None
    }
}

/// The value that a scan of `slot` for `key` comes upon first.
pub open spec fn value_in<K, V>(slot: Seq<(K, V)>, key: K) -> Option<V> {
    match position_of(slot, key) {
        Some(p) => Some(slot[p].1),
        None => None,
    }
}

/// What a lookup of `key` finds in `slots`: the value of the first entry under
/// `key` in the one slot that the key's hash selects. Other slots are never
/// searched, and a table without slots holds nothing.
pub open spec fn lookup<K: HashKey, V>(slots: Seq<Seq<(K, V)>>, key: K) -> Option<V> {
    if slots.len() == 0 {
        None
    } else {
        value_in(slots[slot_index(key.hash_spec(), slots.len())], key)
    }
}

/// The slots once `key` is stored with `value`: the first entry under `key` in
/// the key's slot is overwritten in place, and where there is none, a new
/// entry is appended to that slot.
pub open spec fn with_entry<K: HashKey, V>(slots: Seq<Seq<(K, V)>>, key: K, value: V) -> Seq<
    Seq<(K, V)>,
>
    recommends
        slots.len() > 0,
{
    let i = slot_index(key.hash_spec(), slots.len());
    match position_of(slots[i], key) {
        Some(p) => slots.update(i, slots[i].update(p, (key, value))),
        None => slots.update(i, slots[i].push((key, value))),
    }
}

/// A slot after the entry at `p` has left it: the last entry takes its place,
/// so the order of the others is kept only up to that move.
pub open spec fn swap_removed<K, V>(slot: Seq<(K, V)>, p: int) -> Seq<(K, V)>
    recommends
        0 <= p < slot.len(),
{
    slot.update(p, slot.last()).drop_last()
}

/// The slots once the first entry under `key` has left the key's slot; the
/// same slots where there is no such entry.
pub open spec fn without_key<K: HashKey, V>(slots: Seq<Seq<(K, V)>>, key: K) -> Seq<Seq<(K, V)>>
    recommends
        slots.len() > 0,
{
    let i = slot_index(key.hash_spec(), slots.len());
    match position_of(slots[i], key) {
        Some(p) => slots.update(i, swap_removed(slots[i], p)),
        None => slots,
    }
}

/// The number of slots that hold at least one entry.
pub open spec fn occupied_count<K, V>(slots: Seq<Seq<(K, V)>>) -> nat
    decreases slots.len(),
{
    if slots.len() == 0 {
        0
    } else {
        occupied_count(slots.drop_last()) + if slots.last().len() > 0 {
            1nat
        } else {
            0nat
        }
    }
}

/// The number of entries in all slots together.
pub open spec fn entry_count<K, V>(slots: Seq<Seq<(K, V)>>) -> nat
    decreases slots.len(),
{
    if slots.len() == 0 {
        0
    } else {
        entry_count(slots.drop_last()) + slots.last().len()
    }
}

/// Every slot of `slots` holds a chain.
pub open spec fn all_occupied<K, V>(slots: Seq<Seq<(K, V)>>) -> bool {
    forall|i: int| 0 <= i < slots.len() ==> (#[trigger] slots[i]).len() > 0
}

/// The slot that a whole chain moves to among `capacity` slots: the one that
/// the key of its first entry selects.
pub open spec fn destination<K: HashKey, V>(chain: Seq<(K, V)>, capacity: nat) -> int
    recommends
        chain.len() > 0,
        capacity > 0,
{
    slot_index(chain[0].0.hash_spec(), capacity)
}

/// The slots `target` after the first `n` chains of `moved` have settled in
/// them, one after the other: each chain replaces whatever its destination
/// held, so of two chains with one destination only the later one stays.
pub open spec fn settled<K: HashKey, V>(
    target: Seq<Seq<(K, V)>>,
    moved: Seq<Seq<(K, V)>>,
    n: nat,
) -> Seq<Seq<(K, V)>>
    recommends
        n <= moved.len(),
    decreases n,
{
    if n == 0 {
        target
    } else {
        let chain = moved[n - 1];
        settled(target, moved, (n - 1) as nat).update(destination(chain, target.len()), chain)
    }
}

/// `capacity` slots, all empty.
pub open spec fn empty_slots<K, V>(capacity: nat) -> Seq<Seq<(K, V)>> {
    Seq::new(capacity, |j: int| Seq::<(K, V)>::empty())
}

/// The slots after a resize to `capacity`: fresh empty slots in which the old
/// chains have settled, each as a whole.
pub open spec fn relocated<K: HashKey, V>(slots: Seq<Seq<(K, V)>>, capacity: nat) -> Seq<
    Seq<(K, V)>,
> {
    settled(empty_slots(capacity), slots, slots.len())
}

/// No key occurs twice in `slot`.
pub open spec fn distinct_keys<K, V>(slot: Seq<(K, V)>) -> bool {
    forall|a: int, b: int|
        0 <= a < b < slot.len() ==> (#[trigger] slot[a]).0 != (#[trigger] slot[b]).0
}

/// Every entry lies in the slot that its key's hash selects among the slots
/// there are now.
pub open spec fn well_placed<K: HashKey, V>(slots: Seq<Seq<(K, V)>>) -> bool {
    forall|i: int, j: int|
        0 <= i < slots.len() && 0 <= j < slots[i].len() ==> slot_index(
            (#[trigger] slots[i][j]).0.hash_spec(),
            slots.len(),
        ) == i
}

/// The slots form a sound table: entries lie where lookups search for them,
/// and no slot holds a key twice.
pub open spec fn consistent<K: HashKey, V>(slots: Seq<Seq<(K, V)>>) -> bool {
    &&& well_placed(slots)
    &&& forall|i: int| 0 <= i < slots.len() ==> distinct_keys(#[trigger] slots[i])
}

/// The slots as a map: each key that a lookup finds, with the value found.
pub open spec fn contents<K: HashKey, V>(slots: Seq<Seq<(K, V)>>) -> Map<K, V> {
    Map::new(|key: K| lookup(slots, key) is Some, |key: K| lookup(slots, key).unwrap())
}

/// The keys that occur in `slot`.
pub open spec fn keys_of<K, V>(slot: Seq<(K, V)>) -> Set<K> {
    slot.map_values(|entry: (K, V)| entry.0).to_set()
}

/// The keys that lookups find in the first `n` slots.
pub open spec fn found_below<K: HashKey, V>(slots: Seq<Seq<(K, V)>>, n: int) -> Set<K> {
    Set::new(|key: K| lookup(slots, key) is Some && slot_index(key.hash_spec(), slots.len()) < n)
}

/// The first match is unique, so any position known to be it is `position_of`.
pub proof fn lemma_position_of_first_match<K, V>(slot: Seq<(K, V)>, key: K, p: int)
    requires
        is_first_match(slot, key, p),
    ensures
        position_of(slot, key) == Some(p),
{
    let q = choose|q: int| is_first_match(slot, key, q);
    assert(is_first_match(slot, key, q));
    if q < p {
        assert(slot[q].0 != key);
    } else if p < q {
        assert(slot[p].0 != key);
    }
}

/// A slot without an entry under `key` has no position for it.
pub proof fn lemma_position_of_absent<K, V>(slot: Seq<(K, V)>, key: K)
    requires
        forall|j: int| 0 <= j < slot.len() ==> (#[trigger] slot[j]).0 != key,
    ensures
        position_of(slot, key) is None,
{
}

/// Counting the entries of a prefix never exceeds counting them all.
pub proof fn lemma_entry_count_take<K, V>(slots: Seq<Seq<(K, V)>>, n: int)
    requires
        0 <= n <= slots.len(),
    ensures
        entry_count(slots.take(n)) <= entry_count(slots),
    decreases slots.len(),
{
    if n < slots.len() {
        assert(slots.drop_last().take(n) =~= slots.take(n));
        lemma_entry_count_take(slots.drop_last(), n);
    } else {
        assert(slots.take(n) =~= slots);
    }
}

} // verus!
