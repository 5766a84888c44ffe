//! The slot array of the hash table, and its operations slot by slot.

use crate::key::HashKey;
use crate::slots::{
    all_occupied, empty_slots, entry_count, lemma_entry_count_take, lemma_position_of_absent,
    lemma_position_of_first_match, lookup, occupied_count, position_of, relocated, settled,
    slot_index, with_entry, without_key,
};
use vstd::prelude::*;

verus! {

/// `std::mem::replace` moves `src` into `dest` and returns what `dest` held.
pub assume_specification<T>[ core::mem::replace::<T> ](dest: &mut T, src: T) -> (previous: T)
    ensures
        *final(dest) == src,
        previous == *old(dest),
;

/// The slot array of a hash table: each slot is a chain of entries.
pub struct Buckets<K: HashKey, V> {
    slots: Vec<Vec<(K, V)>>,
}

impl<K: HashKey, V> View for Buckets<K, V> {
    type V = Seq<Seq<(K, V)>>;

    /// The slots in order, each as the sequence of its entries.
    closed spec fn view(&self) -> Seq<Seq<(K, V)>> {
        self.slots@.map_values(|slot: Vec<(K, V)>| slot@)
    }
}

impl<K: HashKey, V> Buckets<K, V> {
    /// A slot array without slots.
    pub fn new() -> (buckets: Self)
        ensures
            buckets@ == Seq::<Seq<(K, V)>>::empty(),
    {
        let buckets = Buckets { slots: Vec::new() };
        assert(buckets@ =~= Seq::<Seq<(K, V)>>::empty());
        buckets
    }

    /// The number of slots.
    pub fn cap(&self) -> (capacity: usize)
        ensures
            capacity == self@.len(),
    {
        self.slots.len()
    }

    /// The slot that `key` belongs to under the current number of slots.
    fn get_index(&self, key: &K) -> (index: usize)
        requires
            self@.len() > 0,
        ensures
            index == slot_index(key.hash_spec(), self@.len()),
            index < self@.len(),
    {
        let hash = key.hash_code();
        (#[verifier::truncate] (hash as usize)) % self.slots.len()
    }

    /// The position of the first entry under `key` in slot `bucket`; nothing
    /// where there is no such slot or no such entry.
    fn get_pos_in_bucket(&self, bucket: usize, key: &K) -> (found: Option<usize>)
        ensures
            bucket >= self@.len() ==> found is None,
            bucket < self@.len() ==> (match found {
                Some(p) => position_of(self@[bucket as int], *key) == Some(p as int),
                None => position_of(self@[bucket as int], *key) is None,
            }),
    {
        if bucket >= self.slots.len() {
            return None;
        }
        let slot = &self.slots[bucket];
        let mut pos: usize = 0;
        while pos < slot.len()
            invariant
                bucket < self@.len(),
                slot@ == self@[bucket as int],
                pos <= slot@.len(),
                forall|j: int| 0 <= j < pos ==> (#[trigger] slot@[j]).0 != *key,
            decreases slot@.len() - pos,
        {
            if slot[pos].0.same_key(key) {
                proof {
                    lemma_position_of_first_match(slot@, *key, pos as int);
                }
                return Some(pos);
            }
            pos += 1;
        }
        proof {
            lemma_position_of_absent(slot@, *key);
        }
        None
    }

    /// Looks `key` up in the slot that its hash selects.
    pub fn get<'a>(&'a self, key: &'a K) -> (found: Option<&'a V>)
        requires
            self@.len() > 0,
        ensures
            match found {
                Some(value) => lookup(self@, *key) == Some(*value),
                None => lookup(self@, *key) is None,
            },
    {
        let i = self.get_index(key);
        match self.get_pos_in_bucket(i, key) {
            Some(pos) => Some(&self.slots[i][pos].1),
            None => None,
        }
    }

    /// Stores `value` under `key` and returns the value that the key had.
    pub fn insert(&mut self, key: K, value: V) -> (previous: Option<V>)
        requires
            old(self)@.len() > 0,
        ensures
            final(self)@ == with_entry(old(self)@, key, value),
            previous == lookup(old(self)@, key),
    {
        let i = self.get_index(&key);
        if let Some(pos) = self.get_pos_in_bucket(i, &key) {
            let (_, v) = core::mem::replace(&mut self.slots[i][pos], (key, value));
            assert(self@ =~= with_entry(old(self)@, key, value));
            return Some(v);
        }
        self.slots[i].push((key, value));
        assert(self@ =~= with_entry(old(self)@, key, value));
        None
    }

    /// Takes the entry under `key` out of its slot and returns its value.
    pub fn remove(&mut self, key: &K) -> (removed: Option<V>)
        requires
            old(self)@.len() > 0,
        ensures
            final(self)@ == without_key(old(self)@, *key),
            removed == lookup(old(self)@, *key),
    {
        let i = self.get_index(&key);
        if let Some(pos) = self.get_pos_in_bucket(i, key) {
            let (_, v) = self.slots[i].swap_remove(pos);
            assert(self@ =~= without_key(old(self)@, *key));
            return Some(v);
        }
        None
    }

    /// The number of slots that hold at least one entry.
    pub fn len(&self) -> (occupied: usize)
        ensures
            occupied == occupied_count(self@),
    {
        let mut occupied: usize = 0;
        let mut i: usize = 0;
        while i < self.slots.len()
            invariant
                i <= self.slots@.len(),
                occupied <= i,
                occupied == occupied_count(self@.take(i as int)),
            decreases self.slots@.len() - i,
        {
            proof {
                assert(self@.take(i + 1).drop_last() =~= self@.take(i as int));
            }
            if !self.slots[i].is_empty() {
                occupied += 1;
            }
            i += 1;
        }
        assert(self@.take(i as int) =~= self@);
        occupied
    }

    /// The number of entries in all slots together.
    pub fn count_items(&self) -> (entries: usize)
        requires
            entry_count(self@) <= usize::MAX,
        ensures
            entries == entry_count(self@),
    {
        let mut entries: usize = 0;
        let mut i: usize = 0;
        while i < self.slots.len()
            invariant
                i <= self.slots@.len(),
                entries == entry_count(self@.take(i as int)),
                entry_count(self@) <= usize::MAX,
            decreases self.slots@.len() - i,
        {
            proof {
                assert(self@.take(i + 1).drop_last() =~= self@.take(i as int));
                lemma_entry_count_take(self@, i + 1);
            }
            entries += self.slots[i].len();
            i += 1;
        }
        assert(self@.take(i as int) =~= self@);
        entries
    }

    /// Replaces the slot array by one of `cap` slots and moves every old
    /// chain, as a whole, to the slot that its first key selects there.
    pub fn resize(&mut self, cap: usize)
        requires
            all_occupied(old(self)@),
            old(self)@.len() > 0 ==> cap > 0,
        ensures
            final(self)@ == relocated(old(self)@, cap as nat),
    {
        let mut new_buckets: Vec<Vec<(K, V)>> = Vec::with_capacity(cap);
        let mut n: usize = 0;
        while n < cap
            invariant
                n <= cap,
                new_buckets@.len() == n,
                forall|j: int| 0 <= j < n ==> (#[trigger] new_buckets@[j])@.len() == 0,
            decreases cap - n,
        {
            new_buckets.push(Vec::new());
            n += 1;
        }
        let old_buckets = core::mem::replace(&mut self.slots, new_buckets);
        assert(self@ =~~= empty_slots::<K, V>(cap as nat));
        assert(old_buckets@.map_values(|slot: Vec<(K, V)>| slot@) =~= old(self)@);
        assert forall|i: int| 0 <= i < old_buckets@.len() implies (#[trigger] old_buckets@[i])@.len()
            > 0 by {
            assert(old(self)@[i].len() > 0);
        }
        self.update_old_values(old_buckets);
    }

    /// Settles the chains of `old_buckets` in the current slots, in order.
    fn update_old_values(&mut self, old_buckets: Vec<Vec<(K, V)>>)
        requires
            forall|i: int| 0 <= i < old_buckets@.len() ==> (#[trigger] old_buckets@[i])@.len() > 0,
            old_buckets@.len() > 0 ==> old(self)@.len() > 0,
        ensures
            final(self)@ == settled(
                old(self)@,
                old_buckets@.map_values(|slot: Vec<(K, V)>| slot@),
                old_buckets@.len(),
            ),
    {
        let ghost moved = old_buckets@.map_values(|slot: Vec<(K, V)>| slot@);
        for bucket in chains: old_buckets
            invariant
                chains.seq() == old_buckets@,
                moved == old_buckets@.map_values(|slot: Vec<(K, V)>| slot@),
                forall|i: int|
                    0 <= i < old_buckets@.len() ==> (#[trigger] old_buckets@[i])@.len() > 0,
                old_buckets@.len() > 0 ==> self@.len() > 0,
                self@.len() == old(self)@.len(),
                self@ == settled(old(self)@, moved, chains.index() as nat),
        {
            let new_index = self.get_index(&bucket[0].0);
            self.slots[new_index] = bucket;
            assert(self@ =~= settled(old(self)@, moved, (chains.index() + 1) as nat));
        }
    }
}

} // verus!
