//! How often a literal could be dropped.

use giputils::statistic::SuccessRate;
use vstd::prelude::*;

verus! {

/// `giputils`' count of successes and failures. What is in it is known
/// through the functions below alone.
#[verifier::external_type_specification]
#[verifier::external_body]
pub struct ExSuccessRate(SuccessRate);

/// The successes that were counted.
pub uninterp spec fn successes(rate: SuccessRate) -> nat;

/// The failures that were counted.
pub uninterp spec fn failures(rate: SuccessRate) -> nat;

/// Calls `SuccessRate::default`, which starts both counts at zero.
#[verifier::external_body]
fn empty_rate() -> (r: SuccessRate)
    ensures
        successes(r) == 0,
        failures(r) == 0,
{
    SuccessRate::default()
}

/// Calls `SuccessRate::success`, which counts one more success. The count is
/// a `usize`.
#[verifier::external_body]
fn count_success(rate: &mut SuccessRate)
    requires
        successes(*old(rate)) < usize::MAX,
    ensures
        successes(*final(rate)) == successes(*old(rate)) + 1,
        failures(*final(rate)) == failures(*old(rate)),
{
    rate.success();
}

/// Calls `SuccessRate::fail`, which counts one more failure. The count is a
/// `usize`.
#[verifier::external_body]
fn count_failure(rate: &mut SuccessRate)
    requires
        failures(*old(rate)) < usize::MAX,
    ensures
        failures(*final(rate)) == failures(*old(rate)) + 1,
        successes(*final(rate)) == successes(*old(rate)),
{
    rate.fail();
}

/// The literals that could be dropped and those that could not.
pub struct DropTally {
    rate: SuccessRate,
    tries: usize,
}

/// The mathematical view of a tally.
pub struct DropTallyView {
    pub dropped: nat,
    pub refused: nat,
}

impl View for DropTally {
    type V = DropTallyView;

    closed spec fn view(&self) -> DropTallyView {
        DropTallyView { dropped: successes(self.rate), refused: failures(self.rate) }
    }
}

impl DropTallyView {
    /// No literal was tried.
    pub open spec fn empty() -> DropTallyView {
        DropTallyView { dropped: 0, refused: 0 }
    }

    /// The tally after one more literal was tried. A tally of as many tries
    /// as a machine word holds takes no more.
    pub open spec fn counted(self, dropped: bool) -> DropTallyView {
        if self.dropped + self.refused >= usize::MAX {
            self
        } else if dropped {
            DropTallyView { dropped: self.dropped + 1, ..self }
        } else {
            DropTallyView { refused: self.refused + 1, ..self }
        }
    }
}

impl DropTally {
    #[verifier::type_invariant]
    spec fn tries_add_up(self) -> bool {
        successes(self.rate) + failures(self.rate) == self.tries
    }

    /// No literal was tried.
    pub fn new() -> (r: Self)
        ensures
            r@ == DropTallyView::empty(),
    {
        DropTally { rate: empty_rate(), tries: 0 }
    }

    /// Counts one more literal that was tried.
    pub fn count(&mut self, dropped: bool)
        ensures
            final(self)@ == old(self)@.counted(dropped),
            dropped && old(self)@.dropped + old(self)@.refused < usize::MAX
                ==> final(self)@.dropped == old(self)@.dropped + 1 && final(self)@.refused
                == old(self)@.refused,
            !dropped && old(self)@.dropped + old(self)@.refused < usize::MAX
                ==> final(self)@.refused == old(self)@.refused + 1 && final(self)@.dropped
                == old(self)@.dropped,
            old(self)@.dropped + old(self)@.refused >= usize::MAX ==> final(self)@ == old(self)@,
    {
        proof {
            use_type_invariant(&*self);
        }
        if self.tries == usize::MAX {
            return;
        }
        let mut rate = self.rate;
        if dropped {
            count_success(&mut rate);
        } else {
            count_failure(&mut rate);
        }
        let tries: usize = self.tries + 1;
        *self = DropTally { rate, tries };
    }

    /// The counts, for a report.
    pub fn rate(&self) -> (r: SuccessRate)
        ensures
            successes(r) == self@.dropped,
            failures(r) == self@.refused,
    {
        self.rate
    }
}

/// Every literal that is tried is counted once, on the side that it belongs
/// to.
pub proof fn law_every_try_is_counted_once(tally: DropTallyView, dropped: bool)
    requires
        tally.dropped + tally.refused < usize::MAX,
    ensures
        tally.counted(dropped).dropped == tally.dropped + if dropped {
            1int
        } else {
            0
        },
        tally.counted(dropped).refused == tally.refused + if dropped {
            0int
        } else {
            1
        },
{
}

} // verus!
