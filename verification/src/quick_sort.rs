//! Quicksort with the middle element as pivot.

use crate::ordering::{
    le, lemma_le_reflexive, lemma_le_total, lemma_le_transitive, lemma_operators, sorted,
    total_order,
};
use crate::slices::{lemma_swapped_is_permutation, swapped};
use vstd::prelude::*;
use vstd::seq_lib::lemma_multiset_commutative;

verus! {

/// Every element of `s` is at most `bound`.
pub open spec fn all_at_most<T: Ord>(s: Seq<T>, bound: T) -> bool {
    forall|k: int| 0 <= k < s.len() ==> le(#[trigger] s[k], bound)
}

/// Every element of `s` is at least `bound`.
pub open spec fn all_at_least<T: Ord>(s: Seq<T>, bound: T) -> bool {
    forall|k: int| 0 <= k < s.len() ==> le(bound, #[trigger] s[k])
}

/// Sorts `src` in place.
pub fn quick_sort<T: Ord>(src: &mut [T])
    requires
        total_order::<T>(),
    ensures
        sorted(final(src)@),
        final(src)@.to_multiset() == old(src)@.to_multiset(),
    decreases old(src)@.len(), 1nat,
{
    match src.len() {
        0 | 1 => return ,
        2 => {
            proof {
                lemma_operators(src@[0], src@[1]);
                lemma_le_total(src@[0], src@[1]);
                lemma_swapped_is_permutation(src@, 0, 1);
            }
            if src[0] > src[1] {
                src.swap(0, 1);
            }
        },
        _ => quick_sort_impl(src),
    }
}

/// Sorts a slice of three or more elements: the middle element is the
/// pivot, the others are parted round it, and both parts are sorted in turn.
fn quick_sort_impl<T: Ord>(src: &mut [T])
    requires
        total_order::<T>(),
        old(src)@.len() >= 3,
    ensures
        sorted(final(src)@),
        final(src)@.to_multiset() == old(src)@.to_multiset(),
    decreases old(src)@.len(), 0nat,
{
    let n = src.len();
    let pivot_index = n / 2;
    let ghost pivot = src@[pivot_index as int];
    let mut i: usize = 0;
    let mut j: usize = n - 1;
    while i <= j
        invariant_except_break
            i <= j + 1,
            forall|k: int| j < k < n ==> le(pivot, src@[k]),
        invariant
            total_order::<T>(),
            n == src@.len(),
            n >= 3,
            pivot_index == n / 2,
            src@[pivot_index as int] == pivot,
            src@.to_multiset() == old(src)@.to_multiset(),
            i <= n,
            j < n,
            forall|k: int| 0 <= k < i ==> le(src@[k], pivot),
        ensures
            forall|k: int| i <= k < n ==> le(pivot, src@[k]),
        decreases j + 1 - i,
    {
        proof {
            lemma_operators(src@[i as int], pivot);
            lemma_operators(src@[j as int], pivot);
            lemma_le_total(src@[i as int], pivot);
            lemma_le_total(src@[j as int], pivot);
            lemma_le_reflexive(pivot);
        }
        if src[i] <= src[pivot_index] {
            i += 1;
        } else if src[j] >= src[pivot_index] {
            if j == 0 {
                break ;
            }
            j -= 1;
        } else {
            proof {
                lemma_swapped_is_permutation(src@, i as int, j as int);
            }
            src.swap(i, j);
            i += 1;
            if j == 0 {
                break ;
            }
            j -= 1;
        }
    }
    let b = if i > pivot_index {
        i - 1
    } else {
        i
    };
    proof {
        lemma_swapped_is_permutation(src@, pivot_index as int, b as int);
        lemma_le_reflexive(pivot);
    }
    src.swap(pivot_index, b);
    let ghost parted = src@;
    assert(parted[b as int] == pivot);
    assert(all_at_most(parted.subrange(0, b as int), pivot));
    assert(all_at_least(parted.subrange(b + 1, n as int), pivot));
    let ghost low = parted.subrange(0, b as int);
    let ghost high = parted.subrange(b + 1, n as int);
    let (left, rest) = src.split_at_mut(b);
    quick_sort(left);
    let (middle, right) = rest.split_at_mut(1);
    assert(right@ =~= high);
    assert(middle@ =~= seq![pivot]);
    quick_sort(right);
    proof {
        lemma_sorted_parts_join(low, high, left@, right@, pivot);
        assert(parted =~= low + seq![pivot] + high);
        assert(src@ =~= left@ + seq![pivot] + right@);
    }
}

/// Two sorted parts with a pivot between them, the one holding nothing
/// greater and the other nothing smaller, make a sorted whole; and where the
/// parts were rearranged from others, so was the whole.
pub proof fn lemma_sorted_parts_join<T: Ord>(
    low: Seq<T>,
    high: Seq<T>,
    low_sorted: Seq<T>,
    high_sorted: Seq<T>,
    pivot: T,
)
    requires
        total_order::<T>(),
        all_at_most(low, pivot),
        all_at_least(high, pivot),
        sorted(low_sorted),
        sorted(high_sorted),
        low_sorted.to_multiset() == low.to_multiset(),
        high_sorted.to_multiset() == high.to_multiset(),
    ensures
        sorted(low_sorted + seq![pivot] + high_sorted),
        (low_sorted + seq![pivot] + high_sorted).to_multiset() == (low + seq![pivot]
            + high).to_multiset(),
{
    let joined = low_sorted + seq![pivot] + high_sorted;
    low.to_multiset_ensures();
    high.to_multiset_ensures();
    low_sorted.to_multiset_ensures();
    high_sorted.to_multiset_ensures();
    assert(all_at_most(low_sorted, pivot)) by {
        assert forall|k: int| 0 <= k < low_sorted.len() implies le(
            #[trigger] low_sorted[k],
            pivot,
        ) by {
            assert(low_sorted.contains(low_sorted[k]));
            assert(low_sorted.to_multiset().count(low_sorted[k]) > 0);
            assert(low.to_multiset().count(low_sorted[k]) > 0);
            assert(low.contains(low_sorted[k]));
        }
    }
    assert(all_at_least(high_sorted, pivot)) by {
        assert forall|k: int| 0 <= k < high_sorted.len() implies le(
            pivot,
            #[trigger] high_sorted[k],
        ) by {
            assert(high_sorted.contains(high_sorted[k]));
            assert(high_sorted.to_multiset().count(high_sorted[k]) > 0);
            assert(high.to_multiset().count(high_sorted[k]) > 0);
            assert(high.contains(high_sorted[k]));
        }
    }
    assert forall|i: int, j: int| 0 <= i < j < joined.len() implies le(joined[i], joined[j]) by {
        let m = low_sorted.len() as int;
        if j < m {
            assert(joined[i] == low_sorted[i] && joined[j] == low_sorted[j]);
        } else if i > m {
            assert(joined[i] == high_sorted[i - m - 1] && joined[j] == high_sorted[j - m - 1]);
        } else if i < m && j == m {
            assert(joined[i] == low_sorted[i]);
        } else if i == m {
            assert(joined[j] == high_sorted[j - m - 1]);
        } else {
            assert(joined[i] == low_sorted[i] && joined[j] == high_sorted[j - m - 1]);
            lemma_le_transitive(joined[i], pivot, joined[j]);
        }
    }
    lemma_multiset_commutative(low_sorted + seq![pivot], high_sorted);
    lemma_multiset_commutative(low_sorted, seq![pivot]);
    lemma_multiset_commutative(low + seq![pivot], high);
    lemma_multiset_commutative(low, seq![pivot]);
}

} // verus!
