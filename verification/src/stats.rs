//! Statistics of the wall-clock times of one case, in milliseconds.
use vstd::prelude::*;
use vstd::relations::{sorted_by, total_ordering};

verus! {

/// The least of some times.
pub open spec fn smallest(runs: Seq<u128>) -> u128
    recommends
        runs.len() > 0,
    decreases runs.len(),
{
    if runs.len() <= 1 {
        runs[0]
    } else {
        let least = smallest(runs.drop_last());
        if runs.last() < least {
            runs.last()
        } else {
            least
        }
    }
}

/// The greatest of some times.
pub open spec fn largest(runs: Seq<u128>) -> u128
    recommends
        runs.len() > 0,
    decreases runs.len(),
{
    if runs.len() <= 1 {
        runs[0]
    } else {
        let greatest = largest(runs.drop_last());
        if runs.last() > greatest {
            runs.last()
        } else {
            greatest
        }
    }
}

/// How far the times lie apart; nothing where there are none.
pub open spec fn spread_of(runs: Seq<u128>) -> int {
    if runs.len() == 0 {
        0
    } else {
        largest(runs) - smallest(runs)
    }
}

/// The times in ascending order.
pub open spec fn ascending(runs: Seq<u128>) -> Seq<u128> {
    runs.sort_by(|a: u128, b: u128| a <= b)
}

/// The element in the middle of a list, the later one of two; zero for an empty list.
pub open spec fn middle_of(sorted: Seq<u128>) -> u128 {
    if sorted.len() == 0 {
        0
    } else {
        sorted[(sorted.len() / 2) as int]
    }
}

/// The smallest and the largest time are among the times and bound them all.
pub proof fn law_extremes_bound_all(runs: Seq<u128>)
    requires
        runs.len() > 0,
    ensures
        runs.contains(smallest(runs)),
        runs.contains(largest(runs)),
        forall|i: int| 0 <= i < runs.len() ==> smallest(runs) <= #[trigger] runs[i] <= largest(runs),
    decreases runs.len(),
{
    if runs.len() > 1 {
        let rest = runs.drop_last();
        law_extremes_bound_all(rest);
        let low = choose|i: int| 0 <= i < rest.len() && rest[i] == smallest(rest);
        let high = choose|i: int| 0 <= i < rest.len() && rest[i] == largest(rest);
        assert(runs[low] == smallest(rest));
        assert(runs[high] == largest(rest));
        assert(runs[runs.len() - 1] == runs.last());
        assert forall|i: int| 0 <= i < runs.len() implies smallest(runs) <= #[trigger] runs[i]
            <= largest(runs) by {
            if i < rest.len() {
                assert(rest[i] == runs[i]);
            }
        }
    }
}

/// The spread is the largest distance between two of the times: no two lie farther
/// apart, and some two do lie so far apart. Without times there is none.
pub proof fn law_spread_is_the_widest_distance(runs: Seq<u128>)
    ensures
        runs.len() == 0 ==> spread_of(runs) == 0,
        forall|i: int, j: int|
            0 <= i < runs.len() && 0 <= j < runs.len() ==> spread_of(runs) >= #[trigger] runs[i]
                - #[trigger] runs[j],
        runs.len() > 0 ==> exists|i: int, j: int|
            0 <= i < runs.len() && 0 <= j < runs.len() && spread_of(runs) == #[trigger] runs[i]
                - #[trigger] runs[j],
{
    if runs.len() > 0 {
        law_extremes_bound_all(runs);
        let high = choose|i: int| 0 <= i < runs.len() && runs[i] == largest(runs);
        let low = choose|i: int| 0 <= i < runs.len() && runs[i] == smallest(runs);
        assert(spread_of(runs) == runs[high] - runs[low]);
    }
}

/// The order of the times does not matter to their spread, and one more time does not
/// make it smaller.
pub proof fn law_spread_grows_with_the_times(runs: Seq<u128>, more: Seq<u128>)
    requires
        forall|i: int| 0 <= i < runs.len() ==> more.contains(#[trigger] runs[i]),
    ensures
        spread_of(runs) <= spread_of(more),
{
    law_spread_is_the_widest_distance(runs);
    law_spread_is_the_widest_distance(more);
    if runs.len() > 0 {
        let (i, j) = choose|i: int, j: int|
            0 <= i < runs.len() && 0 <= j < runs.len() && spread_of(runs) == #[trigger] runs[i]
                - #[trigger] runs[j];
        assert(more.contains(runs[i]) && more.contains(runs[j]));
        let k = choose|k: int| 0 <= k < more.len() && more[k] == runs[i];
        let l = choose|l: int| 0 <= l < more.len() && more[l] == runs[j];
        assert(spread_of(more) >= more[k] - more[l]);
    } else if more.len() > 0 {
        assert(spread_of(more) >= more[0] - more[0]);
    }
}

/// The middle of a list has as many elements before it as behind it, or one more; an
/// empty list has zero for it.
pub proof fn law_middle_splits_the_list(sorted: Seq<u128>)
    ensures
        sorted.len() == 0 ==> middle_of(sorted) == 0,
        sorted.len() > 0 ==> exists|at: int|
            0 <= at < sorted.len() && middle_of(sorted) == #[trigger] sorted[at] && (at == sorted.len()
                - 1 - at || at == sorted.len() - at),
{
    if sorted.len() > 0 {
        let at = sorted.len() as int / 2;
        assert(middle_of(sorted) == sorted[at]);
        assert(at == sorted.len() - 1 - at || at == sorted.len() - at);
    }
}

/// Putting times in ascending order keeps each as often as it occurs, and a list in
/// ascending order that does so is the one.
pub proof fn law_ascending_is_the_sorted_permutation(runs: Seq<u128>, list: Seq<u128>)
    ensures
        ascending(runs).to_multiset() == runs.to_multiset(),
        ascending(runs).len() == runs.len(),
        forall|i: int, j: int|
            0 <= i <= j < ascending(runs).len() ==> ascending(runs)[i] <= ascending(runs)[j],
        list.to_multiset() == runs.to_multiset() && (forall|i: int, j: int|
            0 <= i <= j < list.len() ==> list[i] <= list[j]) ==> list == ascending(runs),
{
    let leq = |a: u128, b: u128| a <= b;
    assert(total_ordering(leq));
    runs.lemma_sort_by_ensures(leq);
    vstd::seq_lib::to_multiset_len(runs);
    vstd::seq_lib::to_multiset_len(ascending(runs));
    let sorted = ascending(runs);
    assert(sorted_by(sorted, leq));
    assert forall|i: int, j: int| 0 <= i <= j < sorted.len() implies sorted[i] <= sorted[j] by {
        if i < j {
            assert(leq(sorted[i], sorted[j]));
        }
    }
    if list.to_multiset() == runs.to_multiset() && (forall|i: int, j: int|
        0 <= i <= j < list.len() ==> list[i] <= list[j]) {
        assert(sorted_by(list, leq));
        vstd::seq_lib::lemma_sorted_unique(list, sorted, leq);
    }
}

/// The first of the times in ascending order is the smallest one, and the middle one
/// lies between the smallest and the largest.
pub proof fn law_best_and_median_are_times(runs: Seq<u128>)
    requires
        runs.len() > 0,
    ensures
        ascending(runs)[0] == smallest(runs),
        runs.contains(middle_of(ascending(runs))),
        smallest(runs) <= middle_of(ascending(runs)) <= largest(runs),
{
    let sorted = ascending(runs);
    law_ascending_is_the_sorted_permutation(runs, runs);
    law_extremes_bound_all(runs);
    let m = (sorted.len() / 2) as int;
    assert(sorted.contains(sorted[0]));
    assert(sorted.contains(sorted[m]));
    vstd::seq_lib::to_multiset_contains(runs, sorted[0]);
    vstd::seq_lib::to_multiset_contains(sorted, sorted[0]);
    vstd::seq_lib::to_multiset_contains(runs, sorted[m]);
    vstd::seq_lib::to_multiset_contains(sorted, sorted[m]);
    vstd::seq_lib::to_multiset_contains(runs, smallest(runs));
    vstd::seq_lib::to_multiset_contains(sorted, smallest(runs));
    let i = choose|i: int| 0 <= i < sorted.len() && sorted[i] == smallest(runs);
    assert(sorted[0] <= sorted[i]);
}

/// Observed run-to-run spread (max - min). The harness's own precision floor for
/// a case: deltas smaller than this cannot be distinguished from noise.
pub fn spread(runs: &[u128]) -> (distance: u128)
    ensures
        distance == spread_of(runs@),
        runs@.len() == 0 ==> distance == 0,
        forall|i: int, j: int|
            0 <= i < runs@.len() && 0 <= j < runs@.len() ==> distance >= #[trigger] runs@[i]
                - #[trigger] runs@[j],
        runs@.len() > 0 ==> exists|i: int, j: int|
            0 <= i < runs@.len() && 0 <= j < runs@.len() && distance == #[trigger] runs@[i]
                - #[trigger] runs@[j],
{
    proof {
        law_spread_is_the_widest_distance(runs@);
    }
    if runs.len() == 0 {
        return 0;
    }
    let mut low: u128 = runs[0];
    let mut high: u128 = runs[0];
    let mut i: usize = 1;
    while i < runs.len()
        invariant
            1 <= i <= runs@.len(),
            low == smallest(runs@.take(i as int)),
            high == largest(runs@.take(i as int)),
        decreases runs@.len() - i,
    {
        assert(runs@.take(i + 1).drop_last() =~= runs@.take(i as int));
        if runs[i] < low {
            low = runs[i];
        }
        if runs[i] > high {
            high = runs[i];
        }
        i = i + 1;
    }
    assert(runs@.take(i as int) =~= runs@);
    proof {
        law_extremes_bound_all(runs@);
        assert(smallest(runs@) <= runs@[0] <= largest(runs@));
    }
    high - low
}

/// The middle of times that are sorted already.
pub fn median(sorted: &[u128]) -> (middle: u128)
    ensures
        middle == middle_of(sorted@),
        sorted@.len() == 0 ==> middle == 0,
        sorted@.len() > 0 ==> middle == sorted@[sorted@.len() as int / 2],
{
    let n: usize = sorted.len();
    if n == 0 {
        0
    } else {
        sorted[n / 2]
    }
}

/// Puts times in ascending order.
pub fn sort_ascending(runs: &Vec<u128>) -> (sorted: Vec<u128>)
    ensures
        sorted@ == ascending(runs@),
        sorted@.to_multiset() == runs@.to_multiset(),
        forall|i: int, j: int| 0 <= i <= j < sorted@.len() ==> sorted@[i] <= sorted@[j],
{
    let mut sorted: Vec<u128> = Vec::new();
    let mut i: usize = 0;
    assert(runs@.take(0) =~= sorted@);
    while i < runs.len()
        invariant
            i <= runs@.len(),
            sorted@.len() == i,
            sorted@.to_multiset() == runs@.take(i as int).to_multiset(),
            forall|a: int, b: int| 0 <= a <= b < sorted@.len() ==> sorted@[a] <= sorted@[b],
        decreases runs@.len() - i,
    {
        let run: u128 = runs[i];
        let mut at: usize = sorted.len();
        while at > 0 && sorted[at - 1] > run
            invariant
                at <= sorted@.len(),
                forall|a: int, b: int| 0 <= a <= b < sorted@.len() ==> sorted@[a] <= sorted@[b],
                forall|a: int| at <= a < sorted@.len() ==> run < #[trigger] sorted@[a],
            decreases at,
        {
            at = at - 1;
        }
        let ghost before = sorted@;
        sorted.insert(at, run);
        proof {
            vstd::seq_lib::to_multiset_insert(before, at as int, run);
            vstd::seq_lib::to_multiset_build(runs@.take(i as int), run);
            assert(runs@.take(i + 1) =~= runs@.take(i as int).push(run));
        }
        assert forall|a: int, b: int| 0 <= a <= b < sorted@.len() implies sorted@[a]
            <= sorted@[b] by {
            let x = if a < at {
                before[a]
            } else if a == at {
                run
            } else {
                before[a - 1]
            };
            assert(sorted@[a] == x);
            let y = if b < at {
                before[b]
            } else if b == at {
                run
            } else {
                before[b - 1]
            };
            assert(sorted@[b] == y);
            if a < at {
                assert(before[a] <= before[at - 1]);
            }
        }
        i = i + 1;
    }
    assert(runs@.take(i as int) =~= runs@);
    proof {
        law_ascending_is_the_sorted_permutation(runs@, sorted@);
    }
    sorted
}

} // verus!
