use algorithms::buckets::Buckets;
use algorithms::hash_table::{needs_growth, HashTable};
use algorithms::key::HashKey;
use std::collections::hash_map::DefaultHasher;
use std::hash::{Hash, Hasher};

fn std_hash<K: Hash>(key: K) -> u64 {
    let mut hasher = DefaultHasher::new();
    key.hash(&mut hasher);
    hasher.finish()
}

fn slot(key: i32, capacity: usize) -> usize {
    (std_hash(key) as usize) % capacity
}

#[test]
fn hash_table_simple() {
    let mut ht = HashTable::new();
    ht.insert(1, "23");
    assert_eq!(ht.len(), 1);
    assert!(!ht.contains_key(&123));
    assert!(ht.get(&1).is_some());
    let prev = ht.insert(1, "13");
    assert!(prev.is_some());
    assert_eq!(prev, Some("23"));
    ht.insert(2, "23");
    ht.insert(3, "23");
    ht.insert(4, "23");
    assert_eq!(ht.len(), 4);
    ht.remove(&1);
    assert!(!ht.contains_key(&1));
}

#[test]
fn sequence_scenario() {
    let mut ht = HashTable::new();
    assert_eq!(ht.insert(1, "23"), None);
    assert_eq!(ht.len(), 1);
    assert!(!ht.contains_key(&123));
    assert_eq!(ht.get(&1), Some(&"23"));
    assert_eq!(ht.insert(1, "13"), Some("23"));
    assert_eq!(ht.insert(2, "23"), None);
    assert_eq!(ht.insert(3, "23"), None);
    assert_eq!(ht.insert(4, "23"), None);
    assert_eq!(ht.len(), 4);
    assert_eq!(ht.remove(&1), Some("13"));
    assert!(!ht.contains_key(&1));
    assert_eq!(ht.len(), 3);
}

#[test]
fn a_new_table_has_no_slots_and_no_entries() {
    let ht: HashTable<u64, u64> = HashTable::new();
    assert_eq!(ht.capacity(), 0);
    assert_eq!(ht.len(), 0);
}

#[test]
fn insert_then_get_returns_the_value() {
    let mut ht = HashTable::new();
    for key in 0..200u64 {
        assert_eq!(ht.insert(key, key * 3), None);
        assert_eq!(ht.get(&key), Some(&(key * 3)));
    }
    for key in (0..200u64).step_by(2) {
        assert_eq!(ht.remove(&key), Some(key * 3));
    }
    for key in 0..200u64 {
        if key % 2 == 0 {
            assert_eq!(ht.get(&key), None);
        } else {
            assert_eq!(ht.get(&key), Some(&(key * 3)));
        }
    }
}

#[test]
fn second_insert_returns_the_first_value() {
    let mut ht = HashTable::new();
    assert_eq!(ht.insert(-7i64, 'a'), None);
    assert_eq!(ht.insert(-7i64, 'b'), Some('a'));
    assert_eq!(ht.get(&-7), Some(&'b'));
    assert_eq!(ht.len(), 1);
    assert_eq!(ht.insert(-7i64, 'c'), Some('b'));
    assert_eq!(ht.get(&-7), Some(&'c'));
    assert_eq!(ht.len(), 1);
}

#[test]
fn len_counts_distinct_keys() {
    let mut ht = HashTable::new();
    for n in 0..64usize {
        assert_eq!(ht.len(), n);
        ht.insert(n, ());
    }
    assert_eq!(ht.len(), 64);
    assert_eq!(ht.remove(&10), Some(()));
    assert_eq!(ht.len(), 63);
    assert_eq!(ht.remove(&11), Some(()));
    assert_eq!(ht.len(), 62);
}

#[test]
fn removing_an_absent_key_changes_nothing() {
    let mut ht = HashTable::new();
    ht.insert(1u32, "one");
    ht.insert(2u32, "two");
    assert_eq!(ht.remove(&3), None);
    assert_eq!(ht.len(), 2);
    assert_eq!(ht.get(&1), Some(&"one"));
    assert_eq!(ht.get(&2), Some(&"two"));
    assert_eq!(ht.remove(&1), Some("one"));
    assert_eq!(ht.remove(&1), None);
    assert_eq!(ht.len(), 1);
}

#[test]
fn a_removed_key_is_gone() {
    let mut ht = HashTable::new();
    for key in 0..20 {
        ht.insert(key, key);
    }
    for key in 0..19 {
        assert!(ht.contains_key(&key));
        assert_eq!(ht.remove(&key), Some(key));
        assert!(!ht.contains_key(&key));
        assert_eq!(ht.get(&key), None);
    }
    assert!(ht.contains_key(&19));
    assert_eq!(ht.len(), 1);
}

#[test]
fn the_first_insert_makes_two_slots_and_later_ones_keep_them() {
    let mut ht = HashTable::new();
    assert_eq!(ht.capacity(), 0);
    ht.insert(0, 0);
    assert_eq!(ht.capacity(), 2);
    for key in 1..100 {
        ht.insert(key, key);
        assert_eq!(ht.capacity(), 2);
    }
    assert_eq!(ht.len(), 100);
    for key in 0..100 {
        assert_eq!(ht.get(&key), Some(&key));
    }
}

#[test]
fn growth_is_due_past_seven_occupied_slots_per_slot() {
    assert!(needs_growth(0, 0));
    assert!(needs_growth(0, 2));
    assert!(!needs_growth(1, 2));
    assert!(!needs_growth(2, 2));
    assert!(!needs_growth(14, 2));
    assert!(!needs_growth(15, 2));
    assert!(needs_growth(16, 2));
    assert!(!needs_growth(7, 1));
    assert!(needs_growth(8, 1));
    assert!(!needs_growth(31, 4));
    assert!(needs_growth(32, 4));
}

#[test]
fn buckets_keep_capacity_occupied_slots_and_entries_apart() {
    let mut buckets = Buckets::new();
    assert_eq!((buckets.cap(), buckets.len(), buckets.count_items()), (0, 0, 0));
    buckets.resize(4);
    assert_eq!((buckets.cap(), buckets.len(), buckets.count_items()), (4, 0, 0));
    let mut occupied = [false; 4];
    for key in 0..10 {
        assert_eq!(buckets.insert(key, key + 100), None);
        occupied[slot(key, 4)] = true;
        let expected = occupied.iter().filter(|o| **o).count();
        assert_eq!(buckets.cap(), 4);
        assert_eq!(buckets.len(), expected);
        assert_eq!(buckets.count_items(), (key + 1) as usize);
    }
    assert_eq!(buckets.insert(3, 0), Some(103));
    assert_eq!(buckets.count_items(), 10);
    assert_eq!(buckets.get(&3), Some(&0));
}

#[test]
fn removal_moves_the_last_entry_of_the_slot_and_loses_none() {
    let mut buckets = Buckets::new();
    buckets.resize(1);
    for key in 0..5 {
        buckets.insert(key, key * 10);
    }
    assert_eq!(buckets.remove(&1), Some(10));
    assert_eq!(buckets.remove(&1), None);
    assert_eq!(buckets.count_items(), 4);
    for key in [0, 2, 3, 4] {
        assert_eq!(buckets.get(&key), Some(&(key * 10)));
    }
    assert_eq!(buckets.remove(&4), Some(40));
    assert_eq!(buckets.remove(&0), Some(0));
    assert_eq!(buckets.get(&2), Some(&20));
    assert_eq!(buckets.get(&3), Some(&30));
    assert_eq!((buckets.len(), buckets.count_items()), (1, 2));
}

#[test]
fn resize_keeps_chains_that_move_intact() {
    let a = (0..).find(|k| slot(*k, 2) == 0).unwrap();
    let b = (0..).find(|k| slot(*k, 2) == 1).unwrap();
    let mut buckets = Buckets::new();
    buckets.resize(2);
    buckets.insert(a, "a");
    buckets.insert(b, "b");
    assert_eq!(buckets.len(), 2);
    buckets.resize(4);
    assert_eq!(buckets.cap(), 4);
    assert_eq!(buckets.get(&a), Some(&"a"));
    assert_eq!(buckets.get(&b), Some(&"b"));
    assert_eq!((buckets.len(), buckets.count_items()), (2, 2));
}

#[test]
fn resize_moves_a_chain_to_the_slot_of_its_first_key() {
    // Two keys that share a slot among two slots and part among four.
    let first = (0..).find(|k| slot(*k, 2) == 0).unwrap();
    let second = (0..)
        .find(|k| slot(*k, 2) == 0 && slot(*k, 4) != slot(first, 4))
        .unwrap();
    let other = (0..).find(|k| slot(*k, 2) == 1).unwrap();
    let mut buckets = Buckets::new();
    buckets.resize(2);
    buckets.insert(first, 1);
    buckets.insert(second, 2);
    buckets.insert(other, 3);
    assert_eq!((buckets.cap(), buckets.len(), buckets.count_items()), (2, 2, 3));
    buckets.resize(4);
    // The chain went as a whole to where `first` belongs: `second` is still
    // stored, and no lookup finds it.
    assert_eq!(buckets.cap(), 4);
    assert_eq!(buckets.get(&first), Some(&1));
    assert_eq!(buckets.get(&second), None);
    assert_eq!(buckets.get(&other), Some(&3));
    assert_eq!((buckets.len(), buckets.count_items()), (2, 3));
    // Stored again, `second` gets a second entry, in its own slot.
    assert_eq!(buckets.insert(second, 20), None);
    assert_eq!(buckets.get(&second), Some(&20));
    assert_eq!((buckets.len(), buckets.count_items()), (3, 4));
}

#[test]
fn resize_lets_a_later_chain_replace_an_earlier_one() {
    let a = (0..).find(|k| slot(*k, 2) == 0).unwrap();
    let b = (0..).find(|k| slot(*k, 2) == 1).unwrap();
    let mut buckets = Buckets::new();
    buckets.resize(2);
    buckets.insert(a, "a");
    buckets.insert(b, "b");
    buckets.resize(1);
    assert_eq!(buckets.cap(), 1);
    assert_eq!(buckets.get(&a), None);
    assert_eq!(buckets.get(&b), Some(&"b"));
    assert_eq!((buckets.len(), buckets.count_items()), (1, 1));
}

#[test]
fn keys_hash_as_the_default_hasher_does() {
    for key in [0i32, 1, -1, 123, i32::MAX, i32::MIN] {
        assert_eq!(key.hash_code(), std_hash(key));
    }
    for key in [0i64, 1, -1, 123, i64::MAX, i64::MIN] {
        assert_eq!(key.hash_code(), std_hash(key));
    }
    for key in [0u32, 1, 123, u32::MAX] {
        assert_eq!(key.hash_code(), std_hash(key));
    }
    for key in [0u64, 1, 123, u64::MAX] {
        assert_eq!(key.hash_code(), std_hash(key));
    }
    for key in [0usize, 1, 123, usize::MAX] {
        assert_eq!(key.hash_code(), std_hash(key));
    }
    assert_ne!(1i32.hash_code(), 2i32.hash_code());
    assert_ne!(1i64.hash_code(), 2i64.hash_code());
    assert_ne!(1u32.hash_code(), 2u32.hash_code());
    assert_ne!(1u64.hash_code(), 2u64.hash_code());
    assert_ne!(1usize.hash_code(), 2usize.hash_code());
    assert_ne!(1i32.hash_code(), DefaultHasher::new().finish());
}

#[test]
fn keys_are_the_same_only_when_equal() {
    assert!(5i32.same_key(&5));
    assert!(!5i32.same_key(&6));
    assert!(5u64.same_key(&5));
    assert!(!5u64.same_key(&(5 + (1 << 32))));
}

#[test]
fn each_key_lives_in_the_slot_of_its_hash() {
    let mut buckets = Buckets::new();
    buckets.resize(8);
    for key in 0..40 {
        buckets.insert(key, ());
    }
    let mut occupied = [false; 8];
    for key in 0..40 {
        occupied[slot(key, 8)] = true;
    }
    assert_eq!(buckets.len(), occupied.iter().filter(|o| **o).count());
    assert_eq!(buckets.count_items(), 40);
}
