//! A sort in place by selecting the smallest element of the rest.

use crate::ordering::{
    le, lemma_le_reflexive, lemma_le_total, lemma_le_transitive, lemma_operators, sorted,
    total_order,
};
use crate::slices::{lemma_swapped_is_permutation, swapped};
use vstd::prelude::*;

verus! {

/// Sorts `src` in place: for each position in turn, the smallest element of
/// what is left trades places with the one that stands there.
pub fn selection_sort<T: Ord>(src: &mut [T])
    requires
        total_order::<T>(),
        old(src)@.len() >= 1,
    ensures
        sorted(final(src)@),
        final(src)@.to_multiset() == old(src)@.to_multiset(),
{
    let n = src.len();
    for i in 0..n - 1
        invariant
            total_order::<T>(),
            n == src@.len(),
            n >= 1,
            src@.to_multiset() == old(src)@.to_multiset(),
            forall|a: int, b: int| 0 <= a < i && a < b < n ==> le(src@[a], src@[b]),
    {
        let ghost before = src@;
        let (position, _) = get_smallest(&src[i..n]);
        src.swap(i, i + position);
        proof {
            lemma_swapped_is_permutation(before, i as int, i + position);
            let rest = before.subrange(i as int, n as int);
            assert forall|a: int, b: int| 0 <= a < i + 1 && a < b < n implies le(
                src@[a],
                src@[b],
            ) by {
                if a < i {
                    // Both stood in their places or traded within the rest.
                    let from = if b == i {
                        i + position
                    } else if b == i + position {
                        i as int
                    } else {
                        b
                    };
                    assert(src@[b] == before[from]);
                    assert(src@[a] == before[a]);
                } else {
                    let from = if b == i + position {
                        i as int
                    } else {
                        b
                    };
                    assert(src@[b] == before[from]);
                    assert(src@[a] == rest[position as int]);
                    assert(before[from] == rest[from - i]);
                }
            }
        }
    }
}

/// The position and the value of the smallest element of `src`; of several
/// smallest ones, the first.
pub fn get_smallest<T: Ord>(src: &[T]) -> (found: (usize, &T))
    requires
        total_order::<T>(),
        src@.len() > 0,
    ensures
        found.0 < src@.len(),
        *found.1 == src@[found.0 as int],
        forall|k: int| 0 <= k < src@.len() ==> le(src@[found.0 as int], src@[k]),
        forall|k: int| 0 <= k < found.0 ==> !le(src@[k], src@[found.0 as int]),
{
    let mut position: usize = 0;
    let mut i: usize = 1;
    proof {
        lemma_le_reflexive(src@[0]);
    }
    while i < src.len()
        invariant
            total_order::<T>(),
            position < i <= src@.len(),
            forall|k: int| 0 <= k < i ==> le(src@[position as int], src@[k]),
            forall|k: int| 0 <= k < position ==> !le(src@[k], src@[position as int]),
        decreases src@.len() - i,
    {
        proof {
            lemma_operators(src@[i as int], src@[position as int]);
        }
        if src[i] < src[position] {
            proof {
                let smaller = src@[i as int];
                let smallest = src@[position as int];
                lemma_le_total(smaller, smallest);
                assert forall|k: int| 0 <= k < i + 1 implies le(smaller, src@[k]) by {
                    if k < i {
                        lemma_le_transitive(smaller, smallest, src@[k]);
                    } else {
                        lemma_le_reflexive(smaller);
                    }
                }
                assert forall|k: int| 0 <= k < i implies !le(src@[k], smaller) by {
                    if le(src@[k], smaller) {
                        lemma_le_transitive(smallest, src@[k], smaller);
                    }
                }
            }
            position = i;
        }
        i += 1;
    }
    (position, &src[position])
}

} // verus!
