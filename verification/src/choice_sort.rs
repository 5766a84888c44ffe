//! A sort that builds its result by choosing the smallest element left.

use vstd::multiset::Multiset;
use vstd::prelude::*;

verus! {

/// No element of `s` is greater than a later one.
pub open spec fn ascending(s: Seq<u32>) -> bool {
    forall|i: int, j: int| 0 <= i < j < s.len() ==> s[i] <= s[j]
}

/// Sorts by choosing: the smallest element left in `src` moves to the end of
/// the result until `src` is used up.
pub fn choice_sort(src: Vec<u32>) -> (ret: Vec<u32>)
    ensures
        ascending(ret@),
        ret@.to_multiset() == src@.to_multiset(),
{
    broadcast use vstd::multiset::group_multiset_axioms;

    let ghost given = src@;
    let mut src = src;
    let mut ret: Vec<u32> = Vec::with_capacity(src.len());
    proof {
        ret@.to_multiset_ensures();
        assert(ret@.to_multiset() =~= Multiset::<u32>::empty());
        assert(ret@.to_multiset().add(src@.to_multiset()) =~= given.to_multiset());
    }
    while src.len() != 0
        invariant
            ascending(ret@),
            forall|i: int, j: int| 0 <= i < ret@.len() && 0 <= j < src@.len() ==> ret@[i] <= src@[j],
            ret@.to_multiset().add(src@.to_multiset()) == given.to_multiset(),
        decreases src@.len(),
    {
        let ghost left = src@;
        let ghost done = ret@;
        let (index, smallest) = get_smallest(src.as_slice());
        ret.push(smallest);
        src.remove(index);
        proof {
            vstd::seq_lib::to_multiset_build(done, smallest);
            vstd::seq_lib::to_multiset_remove(left, index as int);
            left.to_multiset_ensures();
            assert(left.to_multiset().count(smallest) > 0) by {
                assert(left.contains(left[index as int]));
            }
            assert(ret@.to_multiset().add(src@.to_multiset()) =~= done.to_multiset().add(
                left.to_multiset(),
            ));
            assert forall|i: int, j: int| 0 <= i < ret@.len() && 0 <= j < src@.len() implies ret@[i]
                <= src@[j] by {
                let from = if j < index {
                    j
                } else {
                    j + 1
                };
                assert(src@[j] == left[from]);
            }
        }
    }
    proof {
        assert(src@.to_multiset() =~= Multiset::<u32>::empty()) by {
            src@.to_multiset_ensures();
        }
        assert(ret@.to_multiset().add(src@.to_multiset()) =~= ret@.to_multiset());
    }
    ret
}

/// The position and the value of the smallest element of `src`; of several
/// smallest ones, the first.
pub fn get_smallest(src: &[u32]) -> (found: (usize, u32))
    requires
        src@.len() > 0,
    ensures
        found.0 < src@.len(),
        found.1 == src@[found.0 as int],
        forall|k: int| 0 <= k < src@.len() ==> found.1 <= src@[k],
        forall|k: int| 0 <= k < found.0 ==> found.1 < src@[k],
{
    let mut index: usize = 0;
    let mut i: usize = 1;
    while i < src.len()
        invariant
            index < i <= src@.len(),
            forall|k: int| 0 <= k < i ==> src@[index as int] <= src@[k],
            forall|k: int| 0 <= k < index ==> src@[index as int] < src@[k],
        decreases src@.len() - i,
    {
        if src[i] < src[index] {
            index = i;
        }
        i += 1;
    }
    (index, src[index])
}

} // verus!
