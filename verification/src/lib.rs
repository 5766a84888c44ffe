//! A chained hash table with its slot-level model and laws, and a few
//! classic routines on slices: sorts, a search and recursions.

pub mod binary_search;
pub mod buckets;
pub mod choice_sort;
pub mod hash_table;
pub mod key;
pub mod laws;
pub mod ordering;
pub mod quick_sort;
pub mod recursions;
pub mod relocation;
pub mod selection_sort;
pub mod slices;
pub mod slot_laws;
pub mod slots;
