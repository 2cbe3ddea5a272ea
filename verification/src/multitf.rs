//! How many timeframes the checker looks at in one query.
//!
//! The expansion starts at one step. A blocking phase that takes long, both
//! in absolute terms and against the median phase, is restarted at twice the
//! expansion, up to a ceiling. The ceiling is a share of the level that grows
//! with time; an obligation that keeps pressing against it may double it a
//! few times, but never past the hard cap.

use vstd::prelude::*;

use crate::duration::Duration;
use crate::ic3::IC3;
use crate::luby::power_of_two;
use crate::percentile::lower_median;
use crate::statistic::{bump, bumped_if, Mt, Statistic};

verus! {

/// The smaller of two numbers.
pub open spec fn smaller(a: nat, b: nat) -> nat {
    if a <= b {
        a
    } else {
        b
    }
}

/// The number itself, or one where it is zero.
pub open spec fn at_least_one(a: nat) -> nat {
    if a == 0 {
        1
    } else {
        a
    }
}

/// The bound that nothing moves: the level and, where there is one, the
/// configured cap; at least one.
pub open spec fn hard_cap(level: nat, cap: Option<usize>) -> nat {
    match cap {
        Some(c) => at_least_one(smaller(level, c as nat)),
        None => at_least_one(level),
    }
}

/// The expansion ceiling: the share of the level that the time ramp grants,
/// doubled for each earned step, within the hard cap.
pub open spec fn ceiling(hard: nat, ramp: nat, doublings: nat) -> nat {
    smaller(hard, at_least_one(ramp) * power_of_two(doublings))
}

impl IC3 {
    /// The hard cap at the current level.
    pub open spec fn spec_hard_cap(self) -> nat {
        hard_cap(self.spec_level(), self.params.exp_cap)
    }

    /// The ceiling at the current level, where the time ramp grants `ramp`.
    pub open spec fn spec_ceiling(self, ramp: usize) -> nat {
        ceiling(self.spec_hard_cap(), ramp as nat, self.mt_overshoot_used as nat)
    }

    /// Restarts are possible at all: the expansion is not fixed, grows with
    /// difficulty, and the level is deep enough.
    pub open spec fn may_restart(self) -> bool {
        &&& self.cfg.multi_fixed is None
        &&& self.cfg.multi_timeframe
        &&& self.spec_level() >= self.params.min_level
    }

    /// The phase takes longer than the median phase times the factor. Without
    /// a median every phase counts as taking longer.
    pub open spec fn relatively_difficult(self, elapsed: Duration) -> bool {
        match lower_median(self.blocking_time_median@) {
            Some(median) => elapsed@ > median@ * self.params.median_factor,
            None => true,
        }
    }

    /// The expansion has reached the ceiling.
    pub open spec fn at_ceiling(self, ramp: usize) -> bool {
        self.timeframe_expansion == self.spec_ceiling(ramp)
    }

    /// The ceiling can be doubled: a doubling is left, and it buys room.
    pub open spec fn can_raise_ceiling(self, ramp: usize) -> bool {
        &&& self.mt_overshoot_used < self.params.overshoot_max
        &&& self.spec_ceiling(ramp) != self.spec_hard_cap()
    }

    /// The phase is to be restarted at a larger expansion.
    pub open spec fn should_restart(
        self,
        elapsed: Duration,
        threshold: Duration,
        ramp: usize,
    ) -> bool {
        &&& self.may_restart()
        &&& elapsed@ > threshold@
        &&& self.relatively_difficult(elapsed)
        &&& self.at_ceiling(ramp) ==> self.can_raise_ceiling(ramp)
    }

    /// The counters after the restart condition was evaluated.
    pub open spec fn counted_check(
        self,
        elapsed: Duration,
        threshold: Duration,
        ramp: usize,
    ) -> Mt {
        let absolute = elapsed@ > threshold@;
        let relative = self.relatively_difficult(elapsed);
        let mt = self.statistic.mt;
        Mt {
            restart_checks: bumped_if(mt.restart_checks, self.may_restart()),
            abs_only: bumped_if(mt.abs_only, self.may_restart() && absolute && !relative),
            rel_only: bumped_if(mt.rel_only, self.may_restart() && !absolute && relative),
            num_restart: bumped_if(
                mt.num_restart,
                self.should_restart(elapsed, threshold, ramp),
            ),
            ..mt
        }
    }

    /// The state after the restart condition was evaluated.
    pub open spec fn checked_for_restart(
        self,
        elapsed: Duration,
        threshold: Duration,
        ramp: usize,
    ) -> IC3 {
        let raised = self.should_restart(elapsed, threshold, ramp) && self.at_ceiling(ramp);
        IC3 {
            mt_overshoot_used: if raised {
                (self.mt_overshoot_used + 1) as usize
            } else {
                self.mt_overshoot_used
            },
            mt_overshoot_level: if raised {
                self.spec_level() as usize
            } else {
                self.mt_overshoot_level
            },
            statistic: Statistic {
                mt: self.counted_check(elapsed, threshold, ramp),
                ..self.statistic
            },
            ..self
        }
    }

    /// The state with twice the expansion, within the ceiling.
    pub open spec fn deepened(self, ramp: usize) -> IC3 {
        IC3 {
            timeframe_expansion: smaller(
                2 * self.timeframe_expansion as nat,
                self.spec_ceiling(ramp),
            ) as usize,
            mt_escalations: crate::statistic::bumped(self.mt_escalations),
            ..self
        }
    }

    /// The state with the earned doublings given up, unless they were earned
    /// at the current level.
    pub open spec fn overshoot_rescoped(self) -> IC3 {
        if self.mt_overshoot_level == self.spec_level() {
            self
        } else {
            IC3 { mt_overshoot_used: 0, mt_overshoot_level: usize::MAX, ..self }
        }
    }

    /// The expansion bound that neither the ramp nor an earned doubling can
    /// pass.
    pub fn mt_hard_cap(&self) -> (r: usize)
        requires
            self.num_solvers > 0,
        ensures
            r == self.spec_hard_cap(),
            r >= 1,
            r + 1 <= self.num_solvers || r == 1,
            self.params.exp_cap matches Some(cap) ==> r <= cap || r == 1,
            r == 1 || r + 1 == self.num_solvers || self.params.exp_cap == Some(r),
            self.num_solvers >= 2 && self.params.exp_cap is None ==> r + 1 == self.num_solvers,
            self.num_solvers >= 2 ==> (self.params.exp_cap matches Some(cap) ==> cap >= 1 ==> r
                == cap || (r + 1 == self.num_solvers && r <= cap)),
    {
        let mut hard: usize = self.level();
        if let Some(cap) = self.params.exp_cap {
            if cap < hard {
                hard = cap;
            }
        }
        if hard == 0 {
            1
        } else {
            hard
        }
    }

    /// The expansion ceiling. `ramp` is the share of the level that the time
    /// ramp grants now, rounded up.
    pub fn max_timeframe_expansion(&self, ramp: usize) -> (r: usize)
        requires
            self.num_solvers > 0,
        ensures
            r == self.spec_ceiling(ramp),
            1 <= r <= self.spec_hard_cap(),
            self.mt_overshoot_used == 0 ==> r <= ramp || r == 1,
            self.mt_overshoot_used == 0 && 1 <= ramp <= self.spec_hard_cap() ==> r == ramp,
            ramp >= self.spec_hard_cap() ==> r == self.spec_hard_cap(),
    {
        proof {
            law_ceiling_is_the_smaller_bound(
                self.spec_hard_cap(),
                ramp as nat,
                self.mt_overshoot_used as nat,
            );
        }
        let hard: usize = self.mt_hard_cap();
        let base: usize = if ramp == 0 {
            1
        } else {
            ramp
        };
        let ghost used = self.mt_overshoot_used as nat;
        if base >= hard {
            proof {
                crate::luby::lemma_power_monotone(0, used);
                assert(base * power_of_two(used) >= hard) by (nonlinear_arith)
                    requires
                        power_of_two(used) >= 1,
                        base >= hard,
                ;
            }
            return hard;
        }
        let mut value: usize = base;
        let mut i: usize = 0;
        assert(power_of_two(0) == 1);
        while i < self.mt_overshoot_used
            invariant
                i <= self.mt_overshoot_used,
                used == self.mt_overshoot_used,
                base > 0,
                base == at_least_one(ramp as nat),
                value == base * power_of_two(i as nat),
                value < hard,
                hard == self.spec_hard_cap(),
            decreases self.mt_overshoot_used - i,
        {
            assert(base * power_of_two((i + 1) as nat) == 2 * value) by {
                assert(base * (2 * power_of_two(i as nat)) == 2 * (base * power_of_two(i as nat)))
                    by (nonlinear_arith);
            }
            if value >= hard - value {
                proof {
                    crate::luby::lemma_power_monotone((i + 1) as nat, used);
                    assert(base * power_of_two(used) >= base * power_of_two((i + 1) as nat))
                        by (nonlinear_arith)
                        requires
                            power_of_two(used) >= power_of_two((i + 1) as nat),
                    ;
                }
                return hard;
            }
            value = value + value;
            i = i + 1;
        }
        value
    }

    /// Starts a blocking phase for the earned doublings: they belong to the
    /// level at which they were earned, so that later obligations of that
    /// level inherit the raised ceiling, and are given up when the level
    /// advances.
    pub fn mt_overshoot_phase_reset(&mut self)
        requires
            old(self).num_solvers > 0,
        ensures
            *final(self) == old(self).overshoot_rescoped(),
            old(self).mt_overshoot_level + 1 == old(self).num_solvers ==> *final(self)
                == *old(self),
            old(self).mt_overshoot_level + 1 != old(self).num_solvers ==> *final(self) == (IC3 {
                mt_overshoot_used: 0,
                mt_overshoot_level: usize::MAX,
                ..*old(self)
            }),
    {
        if self.mt_overshoot_level == self.level() {
            return;
        }
        self.mt_overshoot_used = 0;
        self.mt_overshoot_level = usize::MAX;
    }

    /// Doubles the expansion within the ceiling, and counts the escalation.
    pub fn update_timeframe_expansion(&mut self, ramp: usize)
        requires
            old(self).num_solvers > 0,
        ensures
            *final(self) == old(self).deepened(ramp),
            final(self).timeframe_expansion <= 2 * old(self).timeframe_expansion,
            final(self).timeframe_expansion <= old(self).spec_ceiling(ramp),
            final(self).timeframe_expansion == 2 * old(self).timeframe_expansion
                || final(self).timeframe_expansion == old(self).spec_ceiling(ramp),
            old(self).mt_escalations < usize::MAX ==> final(self).mt_escalations
                == old(self).mt_escalations + 1,
            *final(self) == (IC3 {
                timeframe_expansion: final(self).timeframe_expansion,
                mt_escalations: final(self).mt_escalations,
                ..*old(self)
            }),
    {
        let ceiling: usize = self.max_timeframe_expansion(ramp);
        if self.timeframe_expansion <= ceiling / 2 {
            self.timeframe_expansion = self.timeframe_expansion * 2;
        } else {
            self.timeframe_expansion = ceiling;
        }
        self.mt_escalations = bump(self.mt_escalations);
    }

    /// Decides whether to restart the blocking phase at a larger expansion.
    /// `threshold` is the absolute threshold scaled for the escalations so
    /// far, `ramp` the share of the level that the time ramp grants now,
    /// rounded up. At the ceiling a doubling of the ceiling is spent, where
    /// one is left and buys room; otherwise the phase goes on at the capped
    /// expansion.
    pub fn is_time_to_restart(
        &mut self,
        elapsed: Duration,
        threshold: Duration,
        ramp: usize,
    ) -> (r: bool)
        requires
            old(self).num_solvers > 0,
        ensures
            r == old(self).should_restart(elapsed, threshold, ramp),
            *final(self) == old(self).checked_for_restart(elapsed, threshold, ramp),
            elapsed@ <= threshold@ ==> !r,
            old(self).blocking_time_median@.len() > 0 && elapsed@
                <= old(self).blocking_time_median@[(old(self).blocking_time_median@.len() - 1)
                / 2]@ * old(self).params.median_factor ==> !r,
            old(self).cfg.multi_fixed is Some || !old(self).cfg.multi_timeframe
                || old(self).num_solvers <= old(self).params.min_level ==> !r,
            old(self).timeframe_expansion == old(self).spec_ceiling(ramp)
                && old(self).mt_overshoot_used >= old(self).params.overshoot_max ==> !r,
            old(self).timeframe_expansion == old(self).spec_ceiling(ramp)
                && old(self).spec_ceiling(ramp) == old(self).spec_hard_cap() ==> !r,
            old(self).cfg.multi_fixed is None && old(self).cfg.multi_timeframe
                && old(self).num_solvers > old(self).params.min_level && elapsed@ > threshold@
                && (old(self).blocking_time_median@.len() == 0 || elapsed@
                > old(self).blocking_time_median@[(old(self).blocking_time_median@.len() - 1)
                / 2]@ * old(self).params.median_factor) && (old(self).timeframe_expansion
                != old(self).spec_ceiling(ramp) || (old(self).mt_overshoot_used
                < old(self).params.overshoot_max && old(self).spec_ceiling(ramp)
                < old(self).spec_hard_cap())) ==> r,
            final(self).timeframe_expansion == old(self).timeframe_expansion,
            final(self).mt_escalations == old(self).mt_escalations,
            final(self).num_solvers == old(self).num_solvers,
            final(self).mt_restart_pending == old(self).mt_restart_pending,
            final(self).blocking_time_median == old(self).blocking_time_median,
            r && old(self).timeframe_expansion == old(self).spec_ceiling(ramp)
                ==> final(self).mt_overshoot_used == old(self).mt_overshoot_used + 1
                && final(self).mt_overshoot_level + 1 == old(self).num_solvers,
            !r || old(self).timeframe_expansion != old(self).spec_ceiling(ramp)
                ==> final(self).mt_overshoot_used == old(self).mt_overshoot_used
                && final(self).mt_overshoot_level == old(self).mt_overshoot_level,
            !r ==> final(self).statistic.mt.num_restart == old(self).statistic.mt.num_restart,
            r && old(self).statistic.mt.num_restart < usize::MAX
                ==> final(self).statistic.mt.num_restart == old(self).statistic.mt.num_restart
                + 1,
    {
        proof {
            law_ceiling_is_the_smaller_bound(
                self.spec_hard_cap(),
                ramp as nat,
                self.mt_overshoot_used as nat,
            );
        }
        if self.cfg.multi_fixed.is_some() {
            return false;
        }
        if !self.cfg.multi_timeframe {
            return false;
        }
        if self.level() < self.params.min_level {
            return false;
        }
        let relatively_difficult: bool = match self.blocking_time_median.median() {
            Some(median) => elapsed.exceeds_multiple(&median, self.params.median_factor),
            None => true,
        };
        let absolutely_difficult: bool = threshold.shorter_than(&elapsed);
        self.statistic.mt.restart_checks = bump(self.statistic.mt.restart_checks);
        if absolutely_difficult && !relatively_difficult {
            self.statistic.mt.abs_only = bump(self.statistic.mt.abs_only);
        }
        if !absolutely_difficult && relatively_difficult {
            self.statistic.mt.rel_only = bump(self.statistic.mt.rel_only);
        }
        if !(absolutely_difficult && relatively_difficult) {
            return false;
        }
        let ceiling: usize = self.max_timeframe_expansion(ramp);
        if self.timeframe_expansion == ceiling {
            if self.mt_overshoot_used >= self.params.overshoot_max || ceiling
                == self.mt_hard_cap() {
                return false;
            }
            self.mt_overshoot_used = self.mt_overshoot_used + 1;
            self.mt_overshoot_level = self.level();
        }
        self.statistic.mt.num_restart = bump(self.statistic.mt.num_restart);
        true
    }
}

/// The ceiling never falls while the level, the time ramp and the earned
/// doublings do not.
pub proof fn law_ceiling_is_monotone(
    level: nat,
    cap: Option<usize>,
    ramp: nat,
    doublings: nat,
    later_level: nat,
    later_ramp: nat,
    later_doublings: nat,
)
    requires
        level <= later_level,
        ramp <= later_ramp,
        doublings <= later_doublings,
    ensures
        hard_cap(level, cap) <= hard_cap(later_level, cap),
        ceiling(hard_cap(level, cap), ramp, doublings) <= ceiling(
            hard_cap(later_level, cap),
            later_ramp,
            later_doublings,
        ),
{
    crate::luby::lemma_power_monotone(doublings, later_doublings);
    let a = at_least_one(ramp);
    let b = at_least_one(later_ramp);
    let p = power_of_two(doublings);
    let q = power_of_two(later_doublings);
    assert(a * p <= b * q) by (nonlinear_arith)
        requires
            a <= b,
            p <= q,
    ;
}

/// The ceiling lies between one and the hard cap, and the hard cap is at most
/// the level, or one at level zero.
pub proof fn law_ceiling_is_bounded(level: nat, cap: Option<usize>, ramp: nat, doublings: nat)
    ensures
        1 <= ceiling(hard_cap(level, cap), ramp, doublings) <= hard_cap(level, cap)
            <= at_least_one(level),
        cap matches Some(c) ==> hard_cap(level, cap) <= at_least_one(c as nat),
{
    crate::luby::lemma_power_monotone(0, doublings);
    let a = at_least_one(ramp);
    let p = power_of_two(doublings);
    assert(a * p >= 1) by (nonlinear_arith)
        requires
            a >= 1,
            p >= 1,
    ;
}

/// A restart always strictly deepens, whatever the configuration: the
/// expansion after it is larger than before, at least two, and within the
/// ceiling. `later_ramp` is what the time ramp grants when the restart is
/// carried out.
pub proof fn law_restart_strictly_deepens(
    ic3: IC3,
    elapsed: Duration,
    threshold: Duration,
    ramp: usize,
    later_ramp: usize,
)
    requires
        ic3.num_solvers > 0,
        1 <= ic3.timeframe_expansion <= ic3.spec_ceiling(ramp),
        ic3.should_restart(elapsed, threshold, ramp),
        ramp <= later_ramp,
    ensures
        ({
            let checked = ic3.checked_for_restart(elapsed, threshold, ramp);
            let after = checked.deepened(later_ramp);
            &&& after.timeframe_expansion > ic3.timeframe_expansion
            &&& after.timeframe_expansion >= 2
            &&& after.timeframe_expansion <= after.spec_ceiling(later_ramp)
        }),
{
    let checked = ic3.checked_for_restart(elapsed, threshold, ramp);
    let level = ic3.spec_level();
    let cap = ic3.params.exp_cap;
    let used = ic3.mt_overshoot_used as nat;
    law_ceiling_is_bounded(level, cap, later_ramp as nat, checked.mt_overshoot_used as nat);
    if ic3.at_ceiling(ramp) {
        law_ceiling_is_monotone(
            level,
            cap,
            ramp as nat,
            used + 1,
            level,
            later_ramp as nat,
            used + 1,
        );
        let a = at_least_one(ramp as nat);
        let p = power_of_two(used);
        assert(power_of_two(used + 1) == 2 * p);
        assert(a * (2 * p) == 2 * (a * p)) by (nonlinear_arith);
        assert(ic3.spec_ceiling(ramp) == a * p);
    } else {
        law_ceiling_is_monotone(level, cap, ramp as nat, used, level, later_ramp as nat, used);
    }
    assert(checked.spec_ceiling(later_ramp) > ic3.timeframe_expansion);
    assert(checked.spec_ceiling(later_ramp) <= usize::MAX);
}

/// Spending a doubling strictly raises the ceiling, and no more doublings are
/// spent than are allowed.
pub proof fn law_breakthrough_buys_room(
    ic3: IC3,
    elapsed: Duration,
    threshold: Duration,
    ramp: usize,
)
    requires
        ic3.num_solvers > 0,
        ic3.should_restart(elapsed, threshold, ramp),
        ic3.at_ceiling(ramp),
        ic3.timeframe_expansion >= 1,
    ensures
        ({
            let checked = ic3.checked_for_restart(elapsed, threshold, ramp);
            &&& checked.spec_ceiling(ramp) > ic3.spec_ceiling(ramp)
            &&& checked.mt_overshoot_used == ic3.mt_overshoot_used + 1
            &&& checked.mt_overshoot_used <= ic3.params.overshoot_max
            &&& checked.mt_overshoot_level == ic3.spec_level()
        }),
{
    let a = at_least_one(ramp as nat);
    let p = power_of_two(ic3.mt_overshoot_used as nat);
    assert(power_of_two((ic3.mt_overshoot_used + 1) as nat) == 2 * p);
    assert(a * (2 * p) == 2 * (a * p)) by (nonlinear_arith);
    law_ceiling_is_bounded(
        ic3.spec_level(),
        ic3.params.exp_cap,
        ramp as nat,
        ic3.mt_overshoot_used as nat,
    );
}

/// With a fixed expansion, or with growth switched off, or below the minimal
/// level, nothing restarts and nothing changes.
pub proof fn law_no_restart_without_leave(
    ic3: IC3,
    elapsed: Duration,
    threshold: Duration,
    ramp: usize,
)
    requires
        ic3.cfg.multi_fixed is Some || !ic3.cfg.multi_timeframe || ic3.spec_level()
            < ic3.params.min_level,
    ensures
        !ic3.should_restart(elapsed, threshold, ramp),
        ic3.checked_for_restart(elapsed, threshold, ramp) == ic3,
{
}

/// The phase outlasts the window of earlier phases: there is none yet, or it
/// took longer than the middle one, the lower of two, times the factor.
pub open spec fn outlasts_the_median(
    window: Seq<Duration>,
    factor: u32,
    elapsed: Duration,
) -> bool {
    window.len() == 0 || elapsed@ > window[(window.len() - 1) / 2]@ * factor
}

/// The hard cap is the largest number that exceeds neither the level nor the
/// configured cap, but at least one.
pub proof fn law_hard_cap_is_the_smaller_bound(level: nat, cap: Option<usize>, n: nat)
    ensures
        hard_cap(level, cap) >= 1,
        hard_cap(level, cap) > 1 ==> hard_cap(level, cap) <= level && (cap matches Some(c)
            ==> hard_cap(level, cap) <= c),
        n <= level && (cap matches Some(c) ==> n <= c) ==> n <= hard_cap(level, cap),
{
}

/// The ceiling is the largest number that exceeds neither the hard cap nor the
/// share of the level, at least one, doubled as often as was earned.
pub proof fn law_ceiling_is_the_smaller_bound(hard: nat, ramp: nat, doublings: nat)
    ensures
        ({
            let base: nat = if ramp == 0 {
                1
            } else {
                ramp
            };
            let grown = base * power_of_two(doublings);
            let c = ceiling(hard, ramp, doublings);
            &&& c <= hard && c <= grown
            &&& c == hard || c == grown
            &&& grown >= base
            &&& doublings == 0 ==> grown == base
            &&& hard >= 1 ==> c >= 1
            &&& ramp >= hard ==> c == hard
        }),
{
    let base: nat = if ramp == 0 {
        1
    } else {
        ramp
    };
    let p = power_of_two(doublings);
    assert(power_of_two(0) == 1);
    crate::luby::lemma_power_monotone(0, doublings);
    assert(base * p >= base) by (nonlinear_arith)
        requires
            p >= 1,
    ;
}

/// One more earned doubling doubles the ceiling, as far as the hard cap
/// allows.
pub proof fn law_doubling_doubles_the_ceiling(hard: nat, ramp: nat, doublings: nat)
    ensures
        ({
            let before = ceiling(hard, ramp, doublings);
            let after = ceiling(hard, ramp, doublings + 1);
            &&& 2 * before <= hard ==> after == 2 * before || before == hard
            &&& before < hard && 2 * before > hard ==> after == hard
            &&& before < hard && 2 * before <= hard ==> after == 2 * before
        }),
{
    let a = at_least_one(ramp);
    let p = power_of_two(doublings);
    assert(power_of_two(doublings + 1) == 2 * p);
    assert(a * (2 * p) == 2 * (a * p)) by (nonlinear_arith);
}

/// A phase restarts exactly where restarts are allowed, it took longer than
/// the scaled threshold that is handed in and longer than the median times the
/// factor, and the expansion is not at a ceiling that cannot be raised. In
/// particular a phase within the scaled threshold never restarts, whatever
/// the parameters say.
pub proof fn law_restart_needs_both_difficulties(
    ic3: IC3,
    elapsed: Duration,
    threshold: Duration,
    ramp: usize,
)
    requires
        ic3.num_solvers > 0,
    ensures
        elapsed@ <= threshold@ ==> !ic3.should_restart(elapsed, threshold, ramp),
        !outlasts_the_median(ic3.blocking_time_median@, ic3.params.median_factor, elapsed)
            ==> !ic3.should_restart(elapsed, threshold, ramp),
        ic3.cfg.multi_fixed is None && ic3.cfg.multi_timeframe && ic3.num_solvers
            > ic3.params.min_level && elapsed@ > threshold@ && outlasts_the_median(
            ic3.blocking_time_median@,
            ic3.params.median_factor,
            elapsed,
        ) && ic3.timeframe_expansion < ic3.spec_ceiling(ramp) ==> ic3.should_restart(
            elapsed,
            threshold,
            ramp,
        ),
{
}

/// Waiting longer never takes a restart back: where a phase restarts, it
/// restarts after any longer time and under any lower threshold.
pub proof fn law_waiting_never_prevents_a_restart(
    ic3: IC3,
    elapsed: Duration,
    threshold: Duration,
    longer: Duration,
    lower: Duration,
    ramp: usize,
)
    requires
        ic3.should_restart(elapsed, threshold, ramp),
        elapsed@ <= longer@,
        lower@ <= threshold@,
    ensures
        ic3.should_restart(longer, lower, ramp),
{
}

/// Every evaluation of the two conditions is counted, with the one that alone
/// held where only one did; where restarts are not allowed nothing is.
pub proof fn law_evaluations_are_counted(
    ic3: IC3,
    elapsed: Duration,
    threshold: Duration,
    ramp: usize,
)
    requires
        ic3.num_solvers > 0,
    ensures
        ({
            let before = ic3.statistic.mt;
            let after = ic3.checked_for_restart(elapsed, threshold, ramp).statistic.mt;
            let allowed = ic3.cfg.multi_fixed is None && ic3.cfg.multi_timeframe
                && ic3.num_solvers > ic3.params.min_level;
            let absolute = elapsed@ > threshold@;
            let relative = outlasts_the_median(
                ic3.blocking_time_median@,
                ic3.params.median_factor,
                elapsed,
            );
            &&& after.restart_checks == bumped_if(before.restart_checks, allowed)
            &&& after.abs_only == bumped_if(before.abs_only, allowed && absolute && !relative)
            &&& after.rel_only == bumped_if(before.rel_only, allowed && !absolute && relative)
            &&& after.fb_no_core == before.fb_no_core && after.fb_rec_refine
                == before.fb_rec_refine && after.fb_gate_reject == before.fb_gate_reject
            &&& after.mt_lemma_added == before.mt_lemma_added
            &&& after.mt_block_by_expansion == before.mt_block_by_expansion
        }),
{
}

/// What a checker earns when it keeps pressing against its ceiling: one more
/// doubling of the ceiling, as far as its hard cap allows.
pub proof fn law_breakthrough_doubles_the_ceiling(before: IC3, after: IC3, ramp: usize)
    requires
        after.mt_overshoot_used == before.mt_overshoot_used + 1,
        after.num_solvers == before.num_solvers,
        after.params.exp_cap == before.params.exp_cap,
    ensures
        after.spec_hard_cap() == before.spec_hard_cap(),
        2 * before.spec_ceiling(ramp) <= before.spec_hard_cap() && before.spec_ceiling(ramp)
            < before.spec_hard_cap() ==> after.spec_ceiling(ramp) == 2 * before.spec_ceiling(ramp),
        2 * before.spec_ceiling(ramp) > before.spec_hard_cap() || before.spec_ceiling(ramp)
            == before.spec_hard_cap() ==> after.spec_ceiling(ramp) == before.spec_hard_cap(),
{
    law_doubling_doubles_the_ceiling(
        before.spec_hard_cap(),
        ramp as nat,
        before.mt_overshoot_used as nat,
    );
    law_ceiling_is_the_smaller_bound(
        before.spec_hard_cap(),
        ramp as nat,
        before.mt_overshoot_used as nat,
    );
    let a = at_least_one(ramp as nat);
    let p = power_of_two(before.mt_overshoot_used as nat);
    assert(power_of_two(before.mt_overshoot_used as nat + 1) == 2 * p);
    assert(a * (2 * p) == 2 * (a * p)) by (nonlinear_arith);
}

/// The earned doublings are kept as long as the level is the one at which they
/// were earned; at any other they are lost, and nothing else changes.
pub proof fn law_doublings_belong_to_their_level(ic3: IC3)
    requires
        ic3.num_solvers > 0,
    ensures
        ic3.mt_overshoot_level + 1 == ic3.num_solvers ==> ic3.overshoot_rescoped() == ic3,
        ic3.mt_overshoot_level + 1 != ic3.num_solvers ==> {
            let next = ic3.overshoot_rescoped();
            &&& next.mt_overshoot_used == 0
            &&& next.mt_overshoot_level == usize::MAX
            &&& next == (IC3 {
                mt_overshoot_used: next.mt_overshoot_used,
                mt_overshoot_level: next.mt_overshoot_level,
                ..ic3
            })
        },
{
}

/// Deepening doubles the expansion as far as the ceiling allows, scales the
/// threshold once more and changes nothing else.
pub proof fn law_deepening_doubles(ic3: IC3, ramp: usize)
    requires
        ic3.num_solvers > 0,
        2 * ic3.timeframe_expansion <= usize::MAX,
    ensures
        ({
            let next = ic3.deepened(ramp);
            &&& 2 * ic3.timeframe_expansion <= ic3.spec_ceiling(ramp) ==> next.timeframe_expansion
                == 2 * ic3.timeframe_expansion
            &&& 2 * ic3.timeframe_expansion >= ic3.spec_ceiling(ramp) ==> next.timeframe_expansion
                == ic3.spec_ceiling(ramp)
            &&& ic3.mt_escalations < usize::MAX ==> next.mt_escalations == ic3.mt_escalations + 1
            &&& next == (IC3 {
                timeframe_expansion: next.timeframe_expansion,
                mt_escalations: next.mt_escalations,
                ..ic3
            })
        }),
{
}

} // verus!
