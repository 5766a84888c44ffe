//! The hash table: a map over chained slots, with its growth rule.

use crate::buckets::Buckets;
use crate::key::HashKey;
use crate::slot_laws::{
    lemma_contents_len, lemma_empty_slots, lemma_occupied_count, lemma_with_entry,
    lemma_without_key,
};
use crate::slots::{
    all_occupied, consistent, contents, entry_count, occupied_count, relocated, with_entry,
    without_key,
};
use vstd::prelude::*;

verus! {

/// The number of slots that a table gets when it first grows.
pub const INITIAL_LEN: usize = 2;

/// What `map` holds under `key`, if anything.
pub open spec fn value_of<K, V>(map: Map<K, V>, key: K) -> Option<V> {
    if map.contains_key(key) {
        Some(map[key])
    } else {
        None
    }
}

/// The growth rule. A table must grow before an insert when none of its
/// slots is occupied, and otherwise when the occupied slots, divided by the
/// number of slots in whole numbers, come to more than seven.
pub open spec fn growth_due(occupied: nat, capacity: nat) -> bool {
    occupied == 0 || occupied / capacity > 7
}

/// The number of slots after growing from `capacity` slots: `INITIAL_LEN`
/// for a table without slots, and twice as many otherwise.
pub open spec fn grown(capacity: nat) -> nat {
    if capacity == 0 {
        INITIAL_LEN as nat
    } else {
        2 * capacity
    }
}

/// Evaluates the growth rule on an occupancy and a capacity.
pub fn needs_growth(occupied: usize, capacity: usize) -> (due: bool)
    requires
        occupied > 0 ==> capacity > 0,
    ensures
        due == growth_due(occupied as nat, capacity as nat),
{
    if occupied == 0 {
        return true;
    }
    let occupancy = occupied / capacity;
    occupancy > 7
}

/// While no more slots are occupied than there are slots, the quotient of
/// the growth rule never passes one, so growth is due exactly when no slot
/// is occupied.
pub proof fn lemma_growth_due_only_when_vacant(occupied: nat, capacity: nat)
    requires
        occupied <= capacity,
    ensures
        growth_due(occupied, capacity) <==> occupied == 0,
{
    if occupied > 0 {
        assert(occupied / capacity <= 1) by (nonlinear_arith)
            requires
                0 < occupied <= capacity,
        ;
    }
}

/// Growth finds nothing to move: in any slots, growth is due exactly when
/// there is no entry.
pub proof fn lemma_growth_due_iff_empty<K, V>(slots: Seq<Seq<(K, V)>>)
    ensures
        growth_due(occupied_count(slots), slots.len()) <==> entry_count(slots) == 0,
{
    lemma_occupied_count(slots);
    lemma_growth_due_only_when_vacant(occupied_count(slots), slots.len());
}

/// A map from keys to values, kept in chained slots that the keys' hashes
/// select.
pub struct HashTable<K: HashKey, V> {
    buckets: Buckets<K, V>,
}

impl<K: HashKey, V> View for HashTable<K, V> {
    type V = Map<K, V>;

    /// The entries of the table as a map: what lookups find in its slots.
    open spec fn view(&self) -> Map<K, V> {
        contents(self.slots())
    }
}

impl<K: HashKey, V> HashTable<K, V> {
    /// The slots of the table in order, each with its entries in order.
    pub closed spec fn slots(&self) -> Seq<Seq<(K, V)>> {
        self.buckets@
    }

    /// The table is sound: every entry lies in the slot that its key's hash
    /// selects under the current capacity, and no key is stored twice.
    pub open spec fn wf(&self) -> bool {
        consistent(self.slots())
    }

    /// The number of slots.
    pub open spec fn spec_capacity(&self) -> nat {
        self.slots().len()
    }

    /// The number of slots that hold at least one entry.
    pub open spec fn occupied(&self) -> nat {
        occupied_count(self.slots())
    }

    /// The slots as the growth rule leaves them before an insert: moved to
    /// `grown` of their number where growth is due, and as they are
    /// otherwise.
    pub open spec fn slots_after_growth(&self) -> Seq<Seq<(K, V)>> {
        if growth_due(self.occupied(), self.spec_capacity()) {
            relocated(self.slots(), grown(self.spec_capacity()))
        } else {
            self.slots()
        }
    }

    /// An empty table without slots.
    pub fn new() -> (table: Self)
        ensures
            table.wf(),
            table.slots() == Seq::<Seq<(K, V)>>::empty(),
            table@ == Map::<K, V>::empty(),
    {
        let table = HashTable { buckets: Buckets::new() };
        assert(table@ =~= Map::<K, V>::empty());
        table
    }

    /// Stores `value` under `key`, growing the table first where the growth
    /// rule asks for it, and returns the value that the key had before.
    ///
    /// A table that has slots but no entry cannot take an insert: growing it
    /// would have to move chains that do not exist.
    pub fn insert(&mut self, key: K, value: V) -> (previous: Option<V>)
        requires
            old(self).wf(),
            old(self).spec_capacity() == 0 || old(self)@.len() > 0,
        ensures
            final(self).wf(),
            final(self).slots() == with_entry(old(self).slots_after_growth(), key, value),
            final(self)@ == old(self)@.insert(key, value),
            previous == value_of(old(self)@, key),
            final(self)@.dom().finite(),
            final(self)@.len() == old(self)@.len() + (if old(self)@.contains_key(key) {
                0nat
            } else {
                1nat
            }),
            final(self).spec_capacity() == (if growth_due(
                old(self).occupied(),
                old(self).spec_capacity(),
            ) {
                grown(old(self).spec_capacity())
            } else {
                old(self).spec_capacity()
            }),
            final(self).spec_capacity() == (if old(self).spec_capacity() == 0 {
                INITIAL_LEN as nat
            } else {
                old(self).spec_capacity()
            }),
            final(self).spec_capacity() >= old(self).spec_capacity(),
    {
        proof {
            lemma_occupied_count(self.slots());
            lemma_contents_len(self.slots());
            lemma_growth_due_only_when_vacant(self.occupied(), self.spec_capacity());
        }
        if self.needs_resize() {
            assert(self.slots().len() == 0);
            assert(self@ =~= Map::<K, V>::empty());
            self.resize();
            proof {
                lemma_empty_slots::<K, V>(2);
            }
        }
        proof {
            lemma_with_entry(self.slots(), key, value);
        }
        self.buckets.insert(key, value)
    }

    /// Tells whether the table holds an entry under `key`.
    pub fn contains_key(&self, key: &K) -> (present: bool)
        requires
            self.wf(),
            self.spec_capacity() > 0,
        ensures
            present == self@.contains_key(*key),
    {
        self.get(key).is_some()
    }

    /// The value stored under `key`, if there is one.
    pub fn get<'a>(&'a self, key: &'a K) -> (found: Option<&'a V>)
        requires
            self.wf(),
            self.spec_capacity() > 0,
        ensures
            match found {
                Some(value) => value_of(self@, *key) == Some(*value),
                None => value_of(self@, *key) is None,
            },
    {
        self.buckets.get(key)
    }

    /// Takes the entry under `key` out of the table and returns its value.
    /// The table keeps its slots.
    pub fn remove(&mut self, key: &K) -> (removed: Option<V>)
        requires
            old(self).wf(),
            old(self).spec_capacity() > 0,
        ensures
            final(self).wf(),
            final(self).slots() == without_key(old(self).slots(), *key),
            final(self)@ == old(self)@.remove(*key),
            removed == value_of(old(self)@, *key),
            final(self)@.dom().finite(),
            final(self)@.len() == old(self)@.len() - (if old(self)@.contains_key(*key) {
                1nat
            } else {
                0nat
            }),
            final(self).spec_capacity() == old(self).spec_capacity(),
    {
        proof {
            lemma_without_key(self.slots(), *key);
            lemma_contents_len(self.slots());
        }
        self.buckets.remove(key)
    }

    /// The number of entries.
    pub fn len(&self) -> (entries: usize)
        requires
            self.wf(),
            self@.len() <= usize::MAX,
        ensures
            entries == entry_count(self.slots()),
            entries == self@.len(),
            self@.dom().finite(),
    {
        proof {
            lemma_contents_len(self.slots());
        }
        self.buckets.count_items()
    }

    /// The number of slots.
    pub fn capacity(&self) -> (capacity: usize)
        ensures
            capacity == self.spec_capacity(),
    {
        self.buckets.cap()
    }

    /// Applies the growth rule to the table as it is now.
    fn needs_resize(&self) -> (due: bool)
        ensures
            due == growth_due(self.occupied(), self.spec_capacity()),
    {
        let real_len = self.buckets.len();
        proof {
            lemma_occupied_count(self.slots());
        }
        needs_growth(real_len, self.buckets.cap())
    }

    /// Grows the table to `grown` of its capacity. Every chain moves as a
    /// whole, so every slot must hold one.
    fn resize(&mut self)
        requires
            all_occupied(old(self).slots()),
            2 * old(self).spec_capacity() <= usize::MAX,
        ensures
            final(self).slots() == relocated(old(self).slots(), grown(old(self).spec_capacity())),
    {
        let cap = match self.buckets.cap() {
            0 => INITIAL_LEN,
            n => n * 2,
        };
        self.buckets.resize(cap)
    }
}

} // verus!
