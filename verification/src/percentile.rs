//! The median of a window of measured times.

use vstd::prelude::*;

use crate::duration::Duration;

verus! {

/// The spans of `data` stand from the shortest to the longest.
pub open spec fn ascending(data: Seq<Duration>) -> bool {
    forall|i: int, j: int| 0 <= i <= j < data.len() ==> data[i]@ <= data[j]@
}

/// The lower median of an ascending window: with an even number of spans, the
/// shorter of the two in the middle.
pub open spec fn lower_median(data: Seq<Duration>) -> Option<Duration> {
    if data.len() == 0 {
        None
    } else {
        Some(data[(data.len() - 1) / 2])
    }
}

/// What is left of an ascending window without its `num` longest spans.
pub open spec fn without_largest(data: Seq<Duration>, num: nat) -> Seq<Duration> {
    if num >= data.len() {
        Seq::empty()
    } else {
        data.take(data.len() - num)
    }
}

/// What is left of an ascending window without its `num` shortest spans.
pub open spec fn without_smallest(data: Seq<Duration>, num: nat) -> Seq<Duration> {
    if num >= data.len() {
        Seq::empty()
    } else {
        data.skip(num as int)
    }
}

/// `after` is `before` with `value` put in, in ascending order again.
pub open spec fn with_added(before: Seq<Duration>, value: Duration, after: Seq<Duration>) -> bool {
    &&& ascending(after)
    &&& after.to_multiset() == before.to_multiset().insert(value)
}

/// A median calculator on a sorted vector, made for small windows where cache
/// locality matters. Adding a span takes linear time, the median constant
/// time. Its view is the window, ascending.
pub struct MedianCalculator {
    data: Vec<Duration>,
}

impl View for MedianCalculator {
    type V = Seq<Duration>;

    closed spec fn view(&self) -> Seq<Duration> {
        self.data@
    }
}

impl MedianCalculator {
    #[verifier::type_invariant]
    spec fn sorted(self) -> bool {
        ascending(self.data@)
    }

    /// An empty window.
    pub fn new() -> (r: Self)
        ensures
            r@ == Seq::<Duration>::empty(),
    {
        MedianCalculator { data: Vec::new() }
    }

    /// Adds a span at its place in the order.
    pub fn add(&mut self, value: Duration)
        ensures
            with_added(old(self)@, value, final(self)@),
    {
        proof {
            use_type_invariant(&*self);
        }
        let mut data: Vec<Duration> = Vec::new();
        std::mem::swap(&mut data, &mut self.data);
        let mut low: usize = 0;
        let mut high: usize = data.len();
        while low < high
            invariant
                low <= high <= data.len(),
                ascending(data@),
                forall|i: int| 0 <= i < low ==> data@[i]@ < value@,
                forall|i: int| high <= i < data.len() ==> data@[i]@ >= value@,
            decreases high - low,
        {
            let mid: usize = low + (high - low) / 2;
            if data[mid].shorter_than(&value) {
                low = mid + 1;
            } else {
                high = mid;
            }
        }
        proof {
            broadcast use vstd::seq_lib::group_to_multiset_ensures;

            data@.insert_ensures(low as int, value);
            assert(data@.insert(low as int, value).to_multiset() =~= data@.to_multiset().insert(
                value,
            ));
        }
        data.insert(low, value);
        self.data = data;
    }

    /// Empties the window.
    pub fn reset(&mut self)
        ensures
            final(self)@ == Seq::<Duration>::empty(),
    {
        self.data = Vec::new();
    }

    /// The number of spans in the window.
    pub fn count(&self) -> (r: usize)
        ensures
            r == self@.len(),
    {
        self.data.len()
    }

    /// The median; of an even number of spans, the lower one.
    pub fn median(&self) -> (r: Option<Duration>)
        ensures
            r == lower_median(self@),
            ascending(self@),
            r is None <==> self@.len() == 0,
            self@.len() > 0 ==> r == Some(self@[(self@.len() - 1) / 2]),
    {
        proof {
            use_type_invariant(self);
        }
        if self.data.is_empty() {
            return None;
        }
        let mid: usize = (self.data.len() - 1) / 2;
        Some(self.data[mid])
    }

    /// Removes the `num` longest spans, or all where there are no more.
    pub fn remove_largest(&mut self, num: usize)
        ensures
            final(self)@ == without_largest(old(self)@, num as nat),
            num >= old(self)@.len() ==> final(self)@.len() == 0,
            num < old(self)@.len() ==> final(self)@.len() + num == old(self)@.len(),
            forall|i: int| 0 <= i < final(self)@.len() ==> final(self)@[i] == old(self)@[i],
            ascending(final(self)@),
    {
        proof {
            use_type_invariant(&*self);
        }
        let mut data: Vec<Duration> = Vec::new();
        std::mem::swap(&mut data, &mut self.data);
        if num >= data.len() {
            data.clear();
        } else {
            let kept: usize = data.len() - num;
            data.truncate(kept);
        }
        self.data = data;
    }

    /// Removes the `num` shortest spans, or all where there are no more.
    pub fn remove_smallest(&mut self, num: usize)
        ensures
            final(self)@ == without_smallest(old(self)@, num as nat),
            num >= old(self)@.len() ==> final(self)@.len() == 0,
            num < old(self)@.len() ==> final(self)@.len() + num == old(self)@.len(),
            forall|i: int|
                0 <= i < final(self)@.len() ==> #[trigger] final(self)@[i] == old(self)@[num + i],
            ascending(final(self)@),
    {
        proof {
            use_type_invariant(&*self);
        }
        let mut data: Vec<Duration> = Vec::new();
        std::mem::swap(&mut data, &mut self.data);
        if num >= data.len() {
            data.clear();
            self.data = data;
        } else {
            let rest = data.split_off(num);
            self.data = rest;
        }
    }
}

impl Default for MedianCalculator {
    fn default() -> (r: Self)
        ensures
            r@ == Seq::<Duration>::empty(),
    {
        Self::new()
    }
}

/// What a bounded window keeps before a span is added: everything while it
/// holds fewer than `max_size` spans, and otherwise all but `per_side` spans
/// at either end.
pub open spec fn trimmed(window: Seq<Duration>, max_size: nat, per_side: nat) -> Seq<Duration> {
    if window.len() >= max_size {
        without_smallest(without_largest(window, per_side), per_side)
    } else {
        window
    }
}

/// A median calculator that drops outliers when it is full: as many of the
/// longest spans as of the shortest.
pub struct BoundedMedianCalculator {
    inner: MedianCalculator,
    max_size: usize,
    remove_per_side: usize,
}

impl View for BoundedMedianCalculator {
    type V = Seq<Duration>;

    closed spec fn view(&self) -> Seq<Duration> {
        self.inner@
    }
}

impl BoundedMedianCalculator {
    #[verifier::type_invariant]
    spec fn bounded(self) -> bool {
        &&& self.max_size > 0
        &&& self.remove_per_side <= self.max_size / 2
        &&& self.remove_per_side > 0 ==> self.inner@.len() <= self.max_size
    }

    /// The number of spans from which on outliers are dropped.
    pub closed spec fn spec_max_size(&self) -> nat {
        self.max_size as nat
    }

    /// The number of spans dropped at either end.
    pub closed spec fn spec_remove_per_side(&self) -> nat {
        self.remove_per_side as nat
    }

    /// An empty window of `max_size` spans, from which, when it is full,
    /// `total_remove` spans are dropped, split evenly between the longest and
    /// the shortest. With 100 and 20, the 10 longest and the 10 shortest of
    /// 100 spans make room for the next one.
    pub fn new(max_size: usize, total_remove: usize) -> (r: Self)
        requires
            max_size > 0,
            total_remove < max_size,
        ensures
            r@ == Seq::<Duration>::empty(),
            r.spec_max_size() == max_size,
            r.spec_remove_per_side() == total_remove / 2,
    {
        let remove_per_side: usize = total_remove / 2;
        BoundedMedianCalculator { inner: MedianCalculator::new(), max_size, remove_per_side }
    }

    /// Adds a span, after dropping outliers where the window is full.
    pub fn add(&mut self, value: Duration)
        ensures
            with_added(
                trimmed(old(self)@, old(self).spec_max_size(), old(self).spec_remove_per_side()),
                value,
                final(self)@,
            ),
            ascending(final(self)@),
            old(self)@.len() < old(self).spec_max_size() ==> final(self)@.to_multiset()
                == old(self)@.to_multiset().insert(value),
            old(self)@.len() >= old(self).spec_max_size() ==> final(self)@.to_multiset()
                == old(self)@.subrange(
                old(self).spec_remove_per_side() as int,
                old(self)@.len() - old(self).spec_remove_per_side(),
            ).to_multiset().insert(value),
            final(self).spec_max_size() == old(self).spec_max_size(),
            final(self).spec_remove_per_side() == old(self).spec_remove_per_side(),
    {
        proof {
            use_type_invariant(&*self);
            law_full_window_loses_both_ends(
                self@,
                self.spec_max_size(),
                self.spec_remove_per_side(),
            );
        }
        let mut inner = MedianCalculator::new();
        std::mem::swap(&mut inner, &mut self.inner);
        if inner.count() >= self.max_size {
            inner.remove_largest(self.remove_per_side);
            inner.remove_smallest(self.remove_per_side);
        }
        let ghost kept = inner@;
        inner.add(value);
        proof {
            broadcast use vstd::seq_lib::group_to_multiset_ensures;

            assert(inner@.len() == inner@.to_multiset().len());
            assert(kept.len() == kept.to_multiset().len());
        }
        self.inner = inner;
    }

    /// Empties the window.
    pub fn reset(&mut self)
        ensures
            final(self)@ == Seq::<Duration>::empty(),
            final(self).spec_max_size() == old(self).spec_max_size(),
            final(self).spec_remove_per_side() == old(self).spec_remove_per_side(),
    {
        proof {
            use_type_invariant(&*self);
        }
        self.inner = MedianCalculator::new();
    }

    /// The number of spans in the window. Where outliers are dropped at all,
    /// it never exceeds the window's size.
    pub fn count(&self) -> (r: usize)
        ensures
            r == self@.len(),
            self.spec_remove_per_side() > 0 ==> r <= self.spec_max_size(),
    {
        proof {
            use_type_invariant(self);
        }
        self.inner.count()
    }

    /// The median of the window; of an even number of spans, the lower one.
    pub fn median(&self) -> (r: Option<Duration>)
        ensures
            r == lower_median(self@),
            ascending(self@),
            r is None <==> self@.len() == 0,
            self@.len() > 0 ==> r == Some(self@[(self@.len() - 1) / 2]),
    {
        self.inner.median()
    }
}

/// The window is a function of the spans it holds: the order in which they
/// came does not show, in the median or anywhere else.
pub proof fn law_order_of_insertion_does_not_show(a: Seq<Duration>, b: Seq<Duration>)
    requires
        ascending(a),
        ascending(b),
        a.to_multiset() == b.to_multiset(),
    ensures
        a == b,
        lower_median(a) == lower_median(b),
{
    let leq = |x: Duration, y: Duration| x@ <= y@;
    assert(vstd::relations::total_ordering(leq)) by {
        assert forall|x: Duration, y: Duration| #[trigger] leq(x, y) && #[trigger] leq(
            y,
            x,
        ) implies x == y by {
            crate::duration::lemma_duration_by_length(x, y);
        }
    }
    assert(vstd::relations::sorted_by(a, leq));
    assert(vstd::relations::sorted_by(b, leq));
    vstd::seq_lib::lemma_sorted_unique(a, b, leq);
}

/// Two spans added in either order leave the same window.
pub proof fn law_additions_commute(
    window: Seq<Duration>,
    x: Duration,
    y: Duration,
    after_x: Seq<Duration>,
    after_xy: Seq<Duration>,
    after_y: Seq<Duration>,
    after_yx: Seq<Duration>,
)
    requires
        with_added(window, x, after_x),
        with_added(after_x, y, after_xy),
        with_added(window, y, after_y),
        with_added(after_y, x, after_yx),
    ensures
        after_xy == after_yx,
{
    assert(window.to_multiset().insert(x).insert(y) =~= window.to_multiset().insert(y).insert(x));
    law_order_of_insertion_does_not_show(after_xy, after_yx);
}

/// Removing the longest spans removes none that is shorter than one it keeps,
/// and keeps the window ascending; so with the shortest spans, the other way
/// round.
pub proof fn law_removal_takes_the_extremes(window: Seq<Duration>, num: nat)
    requires
        ascending(window),
    ensures
        ascending(without_largest(window, num)),
        ascending(without_smallest(window, num)),
        num <= window.len() ==> {
            &&& window == without_largest(window, num) + window.skip(window.len() - num)
            &&& window == window.take(num as int) + without_smallest(window, num)
            &&& forall|i: int, j: int|
                0 <= i < window.len() - num <= j < window.len() ==> window[i]@ <= window[j]@
            &&& forall|i: int, j: int|
                0 <= i < num <= j < window.len() ==> window[i]@ <= window[j]@
        },
{
    if num <= window.len() {
        assert(window =~= without_largest(window, num) + window.skip(window.len() - num));
        assert(window =~= window.take(num as int) + without_smallest(window, num));
    }
}

/// A bounded window that drops outliers holds at most `max_size` spans after
/// every addition.
pub proof fn law_bounded_window_stays_bounded(
    window: Seq<Duration>,
    max_size: nat,
    per_side: nat,
    value: Duration,
    after: Seq<Duration>,
)
    requires
        0 < per_side <= max_size / 2,
        window.len() <= max_size,
        with_added(trimmed(window, max_size, per_side), value, after),
    ensures
        after.len() <= max_size,
{
    broadcast use vstd::seq_lib::group_to_multiset_ensures;

    let kept = trimmed(window, max_size, per_side);
    assert(after.len() == after.to_multiset().len());
    assert(kept.len() == kept.to_multiset().len());
}

/// Dropping as many spans on either side leaves an odd-sized window's median
/// where it was.
pub proof fn law_trimming_keeps_the_median(window: Seq<Duration>, per_side: nat)
    requires
        window.len() % 2 == 1,
        2 * per_side < window.len(),
    ensures
        lower_median(without_smallest(without_largest(window, per_side), per_side))
            == lower_median(window),
{
    let kept = without_smallest(without_largest(window, per_side), per_side);
    assert(kept.len() == window.len() - 2 * per_side);
    assert((kept.len() - 1) / 2 + per_side == (window.len() - 1) / 2);
}

/// The median stands in the middle of the window: as many spans before it as
/// after it, or one less.
pub proof fn law_median_splits_the_window(window: Seq<Duration>)
    requires
        ascending(window),
        window.len() > 0,
    ensures
        exists|m: int|
            0 <= m < window.len() && lower_median(window) == Some(#[trigger] window[m]) && (2 * m
                + 1 == window.len() || 2 * m + 2 == window.len()),
        forall|i: int|
            0 <= i && 2 * i < window.len() ==> (#[trigger] window[i])@ <= lower_median(window)->0@,
        forall|i: int|
            i < window.len() <= 2 * i + 2 ==> lower_median(window)->0@ <= (
            #[trigger] window[i])@,
{
    let m = (window.len() - 1) / 2;
    assert(lower_median(window) == Some(window[m]));
}

/// A full window loses as many spans at either end before the next one comes
/// in; one that is not full loses none.
pub proof fn law_full_window_loses_both_ends(window: Seq<Duration>, max_size: nat, per_side: nat)
    requires
        2 * per_side <= max_size,
    ensures
        window.len() < max_size ==> trimmed(window, max_size, per_side) == window,
        window.len() >= max_size ==> trimmed(window, max_size, per_side) == window.subrange(
            per_side as int,
            window.len() - per_side,
        ),
{
    if window.len() >= max_size {
        assert(trimmed(window, max_size, per_side) =~= window.subrange(
            per_side as int,
            window.len() - per_side,
        ));
    }
}

} // verus!
