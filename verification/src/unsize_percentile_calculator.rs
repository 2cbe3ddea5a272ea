//! Percentiles of a set of counts.

use vstd::prelude::*;

verus! {

/// The counts of `data` stand from the smallest to the largest.
pub open spec fn ascending(data: Seq<usize>) -> bool {
    forall|i: int, j: int| 0 <= i <= j < data.len() ==> data[i] <= data[j]
}

/// `after` holds the counts of `before`, in ascending order.
pub open spec fn sorted_form(before: Seq<usize>, after: Seq<usize>) -> bool {
    &&& ascending(after)
    &&& after.to_multiset() == before.to_multiset()
}

/// Calls `<[usize]>::sort_unstable`, which puts the elements in ascending
/// order and neither adds nor loses one.
#[verifier::external_body]
fn sort_counts(data: &mut Vec<usize>)
    ensures
        sorted_form(old(data)@, final(data)@),
{
    data.sort_unstable();
}

/// A collection of counts that answers percentile queries. Its view is the
/// counts in the order in which it stores them.
pub struct UnsizePercentileCalculator {
    data: Vec<usize>,
}

impl View for UnsizePercentileCalculator {
    type V = Seq<usize>;

    closed spec fn view(&self) -> Seq<usize> {
        self.data@
    }
}

impl UnsizePercentileCalculator {
    /// An empty collection.
    pub fn new() -> (r: Self)
        ensures
            r@ == Seq::<usize>::empty(),
    {
        UnsizePercentileCalculator { data: Vec::new() }
    }

    /// Adds a count.
    pub fn add(&mut self, value: usize)
        ensures
            final(self)@ == old(self)@.push(value),
    {
        self.data.push(value);
    }

    /// Removes all counts.
    pub fn reset(&mut self)
        ensures
            final(self)@ == Seq::<usize>::empty(),
    {
        self.data.clear();
    }

    /// The number of counts.
    pub fn count(&self) -> (r: usize)
        ensures
            r == self@.len(),
    {
        self.data.len()
    }

    /// The count with `rank` others below it in ascending order, or `None` of
    /// an empty collection. The counts are left in ascending order. The rank
    /// of the percentile at a ratio between 0 and 1 is the ratio times the
    /// highest rank, rounded.
    pub fn percentile(&mut self, rank: usize) -> (r: Option<usize>)
        requires
            old(self)@.len() > 0 ==> rank < old(self)@.len(),
        ensures
            old(self)@.len() == 0 ==> r is None && final(self)@ == old(self)@,
            old(self)@.len() > 0 ==> {
                &&& sorted_form(old(self)@, final(self)@)
                &&& r == Some(final(self)@[rank as int])
            },
    {
        if self.data.is_empty() {
            return None;
        }
        sort_counts(&mut self.data);
        proof {
            broadcast use vstd::seq_lib::group_to_multiset_ensures;

            assert(self.data@.len() == self.data@.to_multiset().len());
            assert(old(self).data@.len() == old(self).data@.to_multiset().len());
        }
        Some(self.data[rank])
    }
}

/// A percentile depends on which counts were added, not on their order: two
/// collections of the same counts have the same ascending form, so every rank
/// holds the same count.
pub proof fn law_order_of_insertion_does_not_show(
    a: Seq<usize>,
    b: Seq<usize>,
    sorted_a: Seq<usize>,
    sorted_b: Seq<usize>,
)
    requires
        a.to_multiset() == b.to_multiset(),
        sorted_form(a, sorted_a),
        sorted_form(b, sorted_b),
    ensures
        sorted_a == sorted_b,
{
    let leq = |x: usize, y: usize| x <= y;
    assert(vstd::relations::total_ordering(leq));
    assert(vstd::relations::sorted_by(sorted_a, leq));
    assert(vstd::relations::sorted_by(sorted_b, leq));
    vstd::seq_lib::lemma_sorted_unique(sorted_a, sorted_b, leq);
}

/// The lowest rank holds the smallest of the counts and the highest rank the
/// largest, whatever their order.
pub proof fn law_extreme_ranks_hold_the_extremes(before: Seq<usize>, sorted: Seq<usize>, i: int)
    requires
        sorted_form(before, sorted),
        0 <= i < before.len(),
    ensures
        sorted.len() == before.len(),
        sorted[0] <= before[i] <= sorted[sorted.len() - 1],
{
    broadcast use vstd::seq_lib::group_to_multiset_ensures;

    assert(sorted.to_multiset().len() == before.to_multiset().len());
    assert(before.to_multiset().count(before[i]) > 0);
    assert(sorted.contains(before[i]));
    let j = choose|j: int| 0 <= j < sorted.len() && sorted[j] == before[i];
    assert(sorted[0] <= sorted[j] <= sorted[sorted.len() - 1]);
}

/// A query leaves the counts such that the next one finds the same: sorting
/// what is sorted changes nothing.
pub proof fn law_repeated_queries_agree(before: Seq<usize>, first: Seq<usize>, second: Seq<usize>)
    requires
        sorted_form(before, first),
        sorted_form(first, second),
    ensures
        first == second,
{
    law_order_of_insertion_does_not_show(before, first, first, second);
}

/// A higher rank never holds a smaller count.
pub proof fn law_percentiles_are_monotone(sorted: Seq<usize>, low: int, high: int)
    requires
        ascending(sorted),
        0 <= low <= high < sorted.len(),
    ensures
        sorted[low] <= sorted[high],
{
}

} // verus!
