//! A search that probes and narrows a window of a slice.

use vstd::prelude::*;

verus! {

/// Where the search probes next in the window from `low` to `high`: `low`
/// plus half of `high`. While `low` is 0 this is the middle of the window;
/// once `low` has moved it lies beyond the middle, and may lie beyond `high`.
pub open spec fn probe(low: int, high: int) -> int {
    low + high / 2
}

/// The run of the search in the window from `low` to `high`, cut off after
/// `steps` probes. The run ends when the window's ends meet, with nothing
/// found, or when a probe hits `element`, with its position. Nothing is
/// returned where the run is cut off or leaves `src`: where a probe falls
/// outside `src`, or where the upper end would move below 0.
pub open spec fn run(src: Seq<u32>, element: u32, low: int, high: int, steps: nat) -> Option<
    Option<int>,
>
    decreases steps,
{
    if low == high {
        Some(None)
    } else if steps == 0 {
        None
    } else {
        let mid = probe(low, high);
        if !(0 <= mid < src.len()) {
            None
        } else if src[mid] > element {
            if mid == 0 {
                None
            } else {
                run(src, element, low, mid - 1, (steps - 1) as nat)
            }
        } else if src[mid] < element {
            run(src, element, mid + 1, high, (steps - 1) as nat)
        } else {
            Some(Some(mid))
        }
    }
}

/// The run of the search in the window that spans `src`.
pub open spec fn whole_run(src: Seq<u32>, element: u32, steps: nat) -> Option<Option<int>> {
    run(src, element, 0, src.len() - 1, steps)
}

/// The search of `src` for `element` comes to an end inside `src`.
pub open spec fn halts(src: Seq<u32>, element: u32) -> bool {
    src.len() == 0 || exists|steps: nat| #[trigger] whole_run(src, element, steps) is Some
}

/// What the search of `src` for `element` ends with, where it halts.
pub open spec fn outcome(src: Seq<u32>, element: u32) -> Option<int>
    recommends
        halts(src, element),
{
    if src.len() == 0 {
        None
    } else {
        let steps = choose|steps: nat| #[trigger] whole_run(src, element, steps) is Some;
        whole_run(src, element, steps).unwrap()
    }
}

/// A run that has ended is not changed by allowing it more or fewer probes,
/// as long as it still ends.
pub proof fn lemma_run_is_settled(
    src: Seq<u32>,
    element: u32,
    low: int,
    high: int,
    steps: nat,
    others: nat,
)
    requires
        run(src, element, low, high, steps) is Some,
        run(src, element, low, high, others) is Some,
    ensures
        run(src, element, low, high, steps) == run(src, element, low, high, others),
    decreases steps,
{
    if low != high {
        let mid = probe(low, high);
        if src[mid] > element {
            lemma_run_is_settled(
                src,
                element,
                low,
                mid - 1,
                (steps - 1) as nat,
                (others - 1) as nat,
            );
        } else if src[mid] < element {
            lemma_run_is_settled(
                src,
                element,
                mid + 1,
                high,
                (steps - 1) as nat,
                (others - 1) as nat,
            );
        }
    }
}

/// A run of the whole of `src` that ends within some number of probes shows
/// that the search halts, and what it ends with.
pub proof fn lemma_outcome(src: Seq<u32>, element: u32, steps: nat)
    requires
        src.len() > 0,
        whole_run(src, element, steps) is Some,
    ensures
        halts(src, element),
        outcome(src, element) == whole_run(src, element, steps).unwrap(),
{
    let chosen = choose|chosen: nat| #[trigger] whole_run(src, element, chosen) is Some;
    lemma_run_is_settled(src, element, 0, src.len() - 1, steps, chosen);
}

/// Searches `src` for `element` by probing and narrowing a window, and
/// returns the position of the probe that hit it. The window may close on
/// an element that is never probed, so finding nothing does not show that
/// `element` is absent.
pub fn binary_search(src: &[u32], element: u32) -> (found: Option<usize>)
    requires
        halts(src@, element),
    ensures
        match found {
            Some(position) => outcome(src@, element) == Some(position as int),
            None => outcome(src@, element) is None,
        },
        found matches Some(position) ==> position < src@.len() && src@[position as int] == element,
{
    if src.is_empty() {
        return None;
    }
    let ghost all = choose|steps: nat| #[trigger] whole_run(src@, element, steps) is Some;
    let ghost steps = all;
    let mut low: usize = 0;
    let mut high: usize = src.len() - 1;
    while low != high
        invariant
            0 < src@.len() <= usize::MAX,
            run(src@, element, low as int, high as int, steps) is Some,
            run(src@, element, low as int, high as int, steps) == whole_run(src@, element, all),
            outcome(src@, element) == whole_run(src@, element, all).unwrap(),
        decreases steps,
    {
        assert(steps > 0 && 0 <= probe(low as int, high as int) < src@.len());
        let mid = low + high / 2;
        let guess = src[mid];
        proof {
            steps = (steps - 1) as nat;
        }
        if guess > element {
            high = mid - 1;
        }
        if guess < element {
            low = mid + 1;
        }
        if guess == element {
            return Some(mid);
        }
    }
    None
}

} // verus!
