//! Sum, length and maximum of a slice by recursion on its tail.

use vstd::prelude::*;

verus! {

/// Sum of the elements of `s`, as a mathematical integer.
pub open spec fn sum_of(s: Seq<u32>) -> int
    decreases s.len(),
{
    if s.len() == 0 {
        0
    } else {
        s[0] + sum_of(s.subrange(1, s.len() as int))
    }
}

/// Adds up a non-empty slice, front to back, by recursion on its tail.
pub fn rec_sum(array: &[u32]) -> (total: u32)
    requires
        array@.len() >= 1,
        sum_of(array@) <= u32::MAX,
    ensures
        total == sum_of(array@),
    decreases array@.len(),
{
    if array.len() == 1 {
        assert(sum_of(array@.subrange(1, 1)) == 0);
        return array[0];
    }
    let rest = &array[1..array.len()];
    assert(sum_of(rest@) >= 0) by {
        lemma_sum_of_nonnegative(rest@);
    }
    array[0] + rec_sum(rest)
}

/// A sum of unsigned elements is never negative.
pub proof fn lemma_sum_of_nonnegative(s: Seq<u32>)
    ensures
        sum_of(s) >= 0,
    decreases s.len(),
{
    if s.len() > 0 {
        lemma_sum_of_nonnegative(s.subrange(1, s.len() as int));
    }
}

/// Counts the elements of a slice by recursion on its tail.
pub fn length(array: &[u32]) -> (count: u32)
    requires
        array@.len() <= u32::MAX,
    ensures
        count == array@.len(),
    decreases array@.len(),
{
    if array.len() == 0 {
        return 0;
    }
    1 + length(&array[1..array.len()])
}

/// The greatest element of a non-empty slice, found by recursion on its tail.
pub fn max(array: &[u32]) -> (greatest: u32)
    requires
        array@.len() >= 1,
    ensures
        array@.contains(greatest),
        forall|i: int| 0 <= i < array@.len() ==> array@[i] <= greatest,
    decreases array@.len(),
{
    if array.len() == 1 {
        return array[0];
    }
    let rest = &array[1..array.len()];
    let greatest_of_rest = max(rest);
    proof {
        let at = choose|at: int| 0 <= at < rest@.len() && rest@[at] == greatest_of_rest;
        assert(array@[at + 1] == greatest_of_rest);
        assert forall|i: int| 1 <= i < array@.len() implies #[trigger] array@[i]
            <= greatest_of_rest by {
            assert(array@[i] == rest@[i - 1]);
        }
    }
    if array[0] > greatest_of_rest {
        return array[0];
    }
    greatest_of_rest
}

} // verus!
