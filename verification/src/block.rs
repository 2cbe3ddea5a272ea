//! The blocking phase: obligations are popped and blocked until none is left.

use vstd::prelude::*;

use crate::double::{Double, TWENTY};
use crate::duration::Duration;
use crate::ic3::IC3;
use crate::multitf::at_least_one;
use crate::percentile::{lower_median, trimmed, with_added};
use crate::statistic::{bump, bumped, Mt, Statistic};

verus! {

/// How a blocking phase ended.
#[derive(Clone, Copy, PartialEq, Eq, Structural, Debug)]
pub enum BlockResult {
    /// Every obligation was blocked, or a restart is pending.
    Success,
    /// An obligation reaches the initial states: the property is violated.
    Failure,
    /// A fixpoint was reached: the property holds.
    Proved,
    /// More obligations were blocked than the limit allows.
    LimitExceeded,
}

/// How a multi-timeframe blocking attempt ended.
#[derive(Clone, Copy, PartialEq, Eq, Structural, Debug)]
pub enum MtBlockResult {
    /// The obligation was handled: a lemma was added or a deeper obligation
    /// queued.
    Handled,
    /// A fixpoint was reached while adding the lemma.
    Proved,
    /// No lemma can be justified over several timeframes; the obligation is
    /// to be processed with single steps.
    Fallback,
}

/// What the phase waits for.
#[derive(Clone, Copy, PartialEq, Eq, Structural, Debug)]
pub enum BlockStage {
    /// The next obligation.
    Pop,
    /// Whether the lemma in hand meets the initial states.
    Init,
    /// Whether bounded model checking confirms the counterexample.
    Bmc,
    /// That no initial state is in the lemma in hand.
    Solve,
    /// How long the phase has taken.
    Clock,
    /// What the time ramp grants at the restart.
    Ramp,
    /// Whether a frame already excludes the lemma in hand.
    Contained,
    /// How active the obligation in hand is.
    Activity,
    /// How the multi-timeframe attempt ended.
    Mt,
    /// Whether the lemma in hand is blocked by the frame below.
    Blocked,
    /// Whether the generalised lemma closed a fixpoint.
    Generalize,
    /// A predecessor of the lemma in hand.
    Predecessor,
    /// How long the finished phase took.
    Episode,
    /// Nothing: the phase has ended.
    Done(BlockResult),
}

/// An obligation as it comes out of the queue.
#[derive(Clone, Copy, PartialEq, Eq, Structural, Debug)]
pub struct Popped {
    /// It was removed in the meantime.
    pub removed: bool,
    /// The frame in which it is to be blocked.
    pub frame: usize,
    /// Its distance from the bad state.
    pub depth: usize,
}

/// An answer that the phase waited for.
#[derive(Clone, Copy, PartialEq, Eq, Structural, Debug)]
pub enum BlockEvent {
    /// The obligation that was popped, if there was one.
    Popped(Option<Popped>),
    /// Whether the lemma in hand meets the initial states.
    Init(bool),
    /// Whether bounded model checking confirms the counterexample.
    Bmc(bool),
    /// No initial state is in the lemma in hand.
    NoInitialState,
    /// The time since the phase or its latest restart began, the scaled
    /// absolute threshold, and what the time ramp grants.
    Clock { elapsed: Duration, threshold: Duration, ramp: usize },
    /// What the time ramp grants at the restart.
    Ramp(usize),
    /// The frame that excludes the lemma in hand, where one does: `Some(None)`
    /// stands for all frames.
    Contained(Option<Option<usize>>),
    /// The activity of the obligation in hand.
    Activity(Double),
    /// How the multi-timeframe attempt ended.
    Mt(MtBlockResult),
    /// Whether the lemma in hand is blocked by the frame below.
    Blocked(bool),
    /// Whether the generalised lemma closed a fixpoint.
    Generalized(bool),
    /// A predecessor of the lemma in hand was found.
    Predecessor,
}

/// What is to be done next, and which answer is to come back.
#[derive(Clone, Copy, PartialEq, Eq, Structural, Debug)]
pub enum BlockAction {
    /// Pop an obligation of the current level.
    Pop,
    /// Ask whether the lemma in hand meets the initial states.
    QueryInit,
    /// Put the obligation back and check by bounded model checking whether
    /// there is a counterexample of the given depth.
    RequeueThenBmc(usize),
    /// Drop all obligations, also from the lemmas that hold one, then pop.
    ForgetThenPop,
    /// Ask solver 0 for an initial state in the lemma in hand; there must be
    /// none.
    SolveInit,
    /// Read the clock.
    ReadClock,
    /// Read the clock for the time ramp alone.
    ReadRamp,
    /// Clear the queue and start the clock again, then pop.
    ClearThenPop,
    /// Ask which frame excludes the lemma in hand.
    QueryContained,
    /// Push the obligation to the given frame and put it back, then pop.
    RaiseThenPop(usize),
    /// Bump the obligation's activity and report it.
    BumpActivity,
    /// Try to block the lemma in hand over the given number of timeframes.
    MtBlock(usize),
    /// Ask whether the lemma in hand is blocked by the frame below.
    QueryBlocked,
    /// Generalise the lemma in hand and add it.
    Generalize,
    /// Find a predecessor of the lemma in hand.
    FindPredecessor,
    /// Queue the predecessor and put the obligation back, then pop.
    QueuePredecessorThenPop,
    /// Report how long the finished phase took.
    MeasureEpisode,
    /// Put the obligation back; the phase has ended.
    RequeueThenFinish(BlockResult),
    /// The phase has ended.
    Finish(BlockResult),
}

/// A blocking phase in progress.
#[derive(Clone, Copy, PartialEq, Eq, Structural, Debug)]
pub struct BlockRun {
    /// How many obligations may be blocked before the phase gives up.
    pub limit: Option<u128>,
    /// How many obligations were blocked.
    pub noc: usize,
    /// Whether any obligation was popped.
    pub popped_any: bool,
    /// The frame of the obligation in hand.
    pub frame: usize,
    /// The depth of the obligation in hand.
    pub depth: usize,
    /// What the phase waits for.
    pub stage: BlockStage,
}

impl BlockRun {
    /// A phase before its first obligation.
    pub open spec fn started(limit: Option<u128>) -> BlockRun {
        BlockRun {
            limit,
            noc: 0,
            popped_any: false,
            frame: 0,
            depth: 0,
            stage: BlockStage::Pop,
        }
    }

    /// The phase waits for this answer.
    pub open spec fn spec_accepts(self, event: BlockEvent) -> bool {
        match event {
            BlockEvent::Popped(_) => self.stage == BlockStage::Pop,
            BlockEvent::Init(_) => self.stage == BlockStage::Init,
            BlockEvent::Bmc(_) => self.stage == BlockStage::Bmc,
            BlockEvent::NoInitialState => self.stage == BlockStage::Solve,
            BlockEvent::Clock { .. } => self.stage == BlockStage::Clock,
            BlockEvent::Ramp(_) => self.stage == BlockStage::Ramp,
            BlockEvent::Contained(by) => self.stage == BlockStage::Contained && by != Some(
                Some(usize::MAX),
            ),
            BlockEvent::Activity(_) => self.stage == BlockStage::Activity,
            BlockEvent::Mt(_) => self.stage == BlockStage::Mt,
            BlockEvent::Blocked(_) => self.stage == BlockStage::Blocked,
            BlockEvent::Generalized(_) => self.stage == BlockStage::Generalize,
            BlockEvent::Predecessor => self.stage == BlockStage::Predecessor,
        }
    }

    /// Whether the phase waits for this answer.
    pub fn accepts(&self, event: &BlockEvent) -> (r: bool)
        ensures
            r == self.spec_accepts(*event),
    {
        match event {
            BlockEvent::Popped(_) => self.stage == BlockStage::Pop,
            BlockEvent::Init(_) => self.stage == BlockStage::Init,
            BlockEvent::Bmc(_) => self.stage == BlockStage::Bmc,
            BlockEvent::NoInitialState => self.stage == BlockStage::Solve,
            BlockEvent::Clock { .. } => self.stage == BlockStage::Clock,
            BlockEvent::Ramp(_) => self.stage == BlockStage::Ramp,
            BlockEvent::Contained(by) => self.stage == BlockStage::Contained && match by {
                Some(Some(frame)) => *frame != usize::MAX,
                _ => true,
            },
            BlockEvent::Activity(_) => self.stage == BlockStage::Activity,
            BlockEvent::Mt(_) => self.stage == BlockStage::Mt,
            BlockEvent::Blocked(_) => self.stage == BlockStage::Blocked,
            BlockEvent::Generalized(_) => self.stage == BlockStage::Generalize,
            BlockEvent::Predecessor => self.stage == BlockStage::Predecessor,
        }
    }

    /// The phase with another stage.
    pub open spec fn at(self, stage: BlockStage) -> BlockRun {
        BlockRun { stage, ..self }
    }

    /// The phase has blocked more obligations than it may.
    pub open spec fn over_limit(self) -> bool {
        self.limit matches Some(limit) && self.noc > limit
    }
}

impl IC3 {
    /// The state at the start of a blocking phase. A fixed expansion is
    /// limited by the level. After a restart the phase is the same one, and
    /// keeps its expansion. A new phase starts with single steps.
    pub open spec fn phase_begun(self) -> IC3 {
        match self.cfg.multi_fixed {
            Some(fixed) => IC3 {
                timeframe_expansion: at_least_one(
                    crate::multitf::smaller(fixed as nat, self.spec_level()),
                ) as usize,
                ..self
            },
            None => if self.mt_restart_pending {
                IC3 { mt_restart_pending: false, ..self }
            } else {
                IC3 { timeframe_expansion: 1, mt_escalations: 0, ..self }.overshoot_rescoped()
            },
        }
    }

    /// What an answer does to the checker. The end of a phase that was not
    /// interrupted by a restart brings back single steps and the unscaled
    /// threshold.
    pub open spec fn after_answer(self, event: BlockEvent) -> IC3 {
        match event {
            BlockEvent::Popped(None) if !self.mt_restart_pending => IC3 {
                timeframe_expansion: 1,
                mt_escalations: 0,
                ..self
            },
            BlockEvent::Clock { elapsed, threshold, ramp } => self.checked_for_restart(
                elapsed,
                threshold,
                ramp,
            ),
            BlockEvent::Ramp(ramp) => IC3 { mt_restart_pending: true, ..self.deepened(ramp) },
            _ => self,
        }
    }

    /// The lemma in hand is to be blocked over several timeframes.
    pub open spec fn wants_mt(self, run: BlockRun) -> bool {
        &&& self.cfg.multi_enabled
        &&& run.frame == self.spec_level()
        &&& self.timeframe_expansion > 1
    }

    /// What an answer does to the phase, and what is to be done next.
    pub open spec fn block_next(self, run: BlockRun, event: BlockEvent) -> (BlockRun, BlockAction) {
        match event {
            BlockEvent::Popped(None) => if !self.mt_restart_pending && run.popped_any {
                (run.at(BlockStage::Episode), BlockAction::MeasureEpisode)
            } else {
                (
                    run.at(BlockStage::Done(BlockResult::Success)),
                    BlockAction::Finish(BlockResult::Success),
                )
            },
            BlockEvent::Popped(Some(po)) => {
                let run = BlockRun { popped_any: true, ..run };
                if po.removed {
                    (run, BlockAction::Pop)
                } else if run.over_limit() {
                    (
                        run.at(BlockStage::Done(BlockResult::LimitExceeded)),
                        BlockAction::Finish(BlockResult::LimitExceeded),
                    )
                } else {
                    (
                        BlockRun {
                            frame: po.frame,
                            depth: po.depth,
                            stage: BlockStage::Init,
                            ..run
                        },
                        BlockAction::QueryInit,
                    )
                }
            },
            BlockEvent::Init(false) => (run.at(BlockStage::Clock), BlockAction::ReadClock),
            BlockEvent::Init(true) => if self.cfg.abs_cst || self.cfg.abs_trans {
                (run.at(BlockStage::Bmc), BlockAction::RequeueThenBmc(run.depth))
            } else if run.frame > 0 {
                (run.at(BlockStage::Solve), BlockAction::SolveInit)
            } else {
                (
                    run.at(BlockStage::Done(BlockResult::Failure)),
                    BlockAction::RequeueThenFinish(BlockResult::Failure),
                )
            },
            BlockEvent::Bmc(true) => (
                run.at(BlockStage::Done(BlockResult::Failure)),
                BlockAction::Finish(BlockResult::Failure),
            ),
            BlockEvent::Bmc(false) => (run.at(BlockStage::Pop), BlockAction::ForgetThenPop),
            BlockEvent::NoInitialState => (run.at(BlockStage::Clock), BlockAction::ReadClock),
            BlockEvent::Clock { elapsed, threshold, ramp } => if self.should_restart(
                elapsed,
                threshold,
                ramp,
            ) {
                (run.at(BlockStage::Ramp), BlockAction::ReadRamp)
            } else {
                (run.at(BlockStage::Contained), BlockAction::QueryContained)
            },
            BlockEvent::Ramp(_) => (run.at(BlockStage::Pop), BlockAction::ClearThenPop),
            BlockEvent::Contained(None) => (
                run.at(BlockStage::Activity),
                BlockAction::BumpActivity,
            ),
            BlockEvent::Contained(Some(None)) => (run.at(BlockStage::Pop), BlockAction::Pop),
            BlockEvent::Contained(Some(Some(frame))) => (
                run.at(BlockStage::Pop),
                BlockAction::RaiseThenPop((frame + 1) as usize),
            ),
            BlockEvent::Activity(act) => if self.cfg.drop_po && (Double {
                bits: TWENTY,
            }).spec_lt(act) {
                (run.at(BlockStage::Pop), BlockAction::Pop)
            } else if self.wants_mt(run) {
                (run.at(BlockStage::Mt), BlockAction::MtBlock(self.timeframe_expansion))
            } else {
                (run.at(BlockStage::Blocked), BlockAction::QueryBlocked)
            },
            BlockEvent::Mt(MtBlockResult::Proved) => (
                run.at(BlockStage::Done(BlockResult::Proved)),
                BlockAction::Finish(BlockResult::Proved),
            ),
            BlockEvent::Mt(MtBlockResult::Handled) => (run.at(BlockStage::Pop), BlockAction::Pop),
            BlockEvent::Mt(MtBlockResult::Fallback) => (
                run.at(BlockStage::Blocked),
                BlockAction::QueryBlocked,
            ),
            BlockEvent::Blocked(true) => (
                BlockRun { noc: bumped(run.noc), stage: BlockStage::Generalize, ..run },
                BlockAction::Generalize,
            ),
            BlockEvent::Blocked(false) => (
                run.at(BlockStage::Predecessor),
                BlockAction::FindPredecessor,
            ),
            BlockEvent::Generalized(true) => (
                run.at(BlockStage::Done(BlockResult::Proved)),
                BlockAction::Finish(BlockResult::Proved),
            ),
            BlockEvent::Generalized(false) => (run.at(BlockStage::Pop), BlockAction::Pop),
            BlockEvent::Predecessor => (
                run.at(BlockStage::Pop),
                BlockAction::QueuePredecessorThenPop,
            ),
        }
    }

    /// Starts a blocking phase that gives up once more than `limit`
    /// obligations were blocked. The first thing to do is to pop an
    /// obligation.
    pub fn block(&mut self, limit: Option<u128>) -> (run: BlockRun)
        requires
            old(self).num_solvers > 0,
        ensures
            *final(self) == old(self).phase_begun(),
            run == BlockRun::started(limit),
    {
        if let Some(fixed) = self.cfg.multi_fixed {
            let level: usize = self.level();
            let mut expansion: usize = if fixed <= level {
                fixed
            } else {
                level
            };
            if expansion == 0 {
                expansion = 1;
            }
            self.timeframe_expansion = expansion;
        } else if self.mt_restart_pending {
            self.mt_restart_pending = false;
        } else {
            self.timeframe_expansion = 1;
            self.mt_escalations = 0;
            self.mt_overshoot_phase_reset();
        }
        BlockRun {
            limit,
            noc: 0,
            popped_any: false,
            frame: 0,
            depth: 0,
            stage: BlockStage::Pop,
        }
    }

    /// Takes an answer and says what to do next.
    pub fn block_step(&mut self, run: &mut BlockRun, event: BlockEvent) -> (action: BlockAction)
        requires
            old(self).num_solvers > 0,
            old(run).spec_accepts(event),
        ensures
            *final(self) == old(self).after_answer(event),
            (*final(run), action) == old(self).block_next(*old(run), event),
    {
        match event {
            BlockEvent::Popped(None) => {
                if self.mt_restart_pending {
                    run.stage = BlockStage::Done(BlockResult::Success);
                    BlockAction::Finish(BlockResult::Success)
                } else {
                    self.timeframe_expansion = 1;
                    self.mt_escalations = 0;
                    if run.popped_any {
                        run.stage = BlockStage::Episode;
                        BlockAction::MeasureEpisode
                    } else {
                        run.stage = BlockStage::Done(BlockResult::Success);
                        BlockAction::Finish(BlockResult::Success)
                    }
                }
            },
            BlockEvent::Popped(Some(po)) => {
                run.popped_any = true;
                if po.removed {
                    return BlockAction::Pop;
                }
                if let Some(limit) = run.limit {
                    if run.noc as u128 > limit {
                        run.stage = BlockStage::Done(BlockResult::LimitExceeded);
                        return BlockAction::Finish(BlockResult::LimitExceeded);
                    }
                }
                run.frame = po.frame;
                run.depth = po.depth;
                run.stage = BlockStage::Init;
                BlockAction::QueryInit
            },
            BlockEvent::Init(meets) => {
                if !meets {
                    run.stage = BlockStage::Clock;
                    BlockAction::ReadClock
                } else if self.cfg.abs_cst || self.cfg.abs_trans {
                    run.stage = BlockStage::Bmc;
                    BlockAction::RequeueThenBmc(run.depth)
                } else if run.frame > 0 {
                    run.stage = BlockStage::Solve;
                    BlockAction::SolveInit
                } else {
                    run.stage = BlockStage::Done(BlockResult::Failure);
                    BlockAction::RequeueThenFinish(BlockResult::Failure)
                }
            },
            BlockEvent::Bmc(confirmed) => {
                if confirmed {
                    run.stage = BlockStage::Done(BlockResult::Failure);
                    BlockAction::Finish(BlockResult::Failure)
                } else {
                    run.stage = BlockStage::Pop;
                    BlockAction::ForgetThenPop
                }
            },
            BlockEvent::NoInitialState => {
                run.stage = BlockStage::Clock;
                BlockAction::ReadClock
            },
            BlockEvent::Clock { elapsed, threshold, ramp } => {
                if self.is_time_to_restart(elapsed, threshold, ramp) {
                    run.stage = BlockStage::Ramp;
                    BlockAction::ReadRamp
                } else {
                    run.stage = BlockStage::Contained;
                    BlockAction::QueryContained
                }
            },
            BlockEvent::Ramp(ramp) => {
                self.update_timeframe_expansion(ramp);
                self.mt_restart_pending = true;
                run.stage = BlockStage::Pop;
                BlockAction::ClearThenPop
            },
            BlockEvent::Contained(None) => {
                run.stage = BlockStage::Activity;
                BlockAction::BumpActivity
            },
            BlockEvent::Contained(Some(None)) => {
                run.stage = BlockStage::Pop;
                BlockAction::Pop
            },
            BlockEvent::Contained(Some(Some(frame))) => {
                run.stage = BlockStage::Pop;
                BlockAction::RaiseThenPop(frame + 1)
            },
            BlockEvent::Activity(act) => {
                if self.cfg.drop_po && Double::new(TWENTY).lt(&act) {
                    run.stage = BlockStage::Pop;
                    BlockAction::Pop
                } else if self.cfg.multi_enabled && run.frame == self.level()
                    && self.timeframe_expansion > 1 {
                    run.stage = BlockStage::Mt;
                    BlockAction::MtBlock(self.timeframe_expansion)
                } else {
                    run.stage = BlockStage::Blocked;
                    BlockAction::QueryBlocked
                }
            },
            BlockEvent::Mt(result) => match result {
                MtBlockResult::Proved => {
                    run.stage = BlockStage::Done(BlockResult::Proved);
                    BlockAction::Finish(BlockResult::Proved)
                },
                MtBlockResult::Handled => {
                    run.stage = BlockStage::Pop;
                    BlockAction::Pop
                },
                MtBlockResult::Fallback => {
                    run.stage = BlockStage::Blocked;
                    BlockAction::QueryBlocked
                },
            },
            BlockEvent::Blocked(blocked) => {
                if blocked {
                    run.noc = bump(run.noc);
                    run.stage = BlockStage::Generalize;
                    BlockAction::Generalize
                } else {
                    run.stage = BlockStage::Predecessor;
                    BlockAction::FindPredecessor
                }
            },
            BlockEvent::Generalized(fixpoint) => {
                if fixpoint {
                    run.stage = BlockStage::Done(BlockResult::Proved);
                    BlockAction::Finish(BlockResult::Proved)
                } else {
                    run.stage = BlockStage::Pop;
                    BlockAction::Pop
                }
            },
            BlockEvent::Predecessor => {
                run.stage = BlockStage::Pop;
                BlockAction::QueuePredecessorThenPop
            },
        }
    }

    /// Ends a phase that popped obligations and was not interrupted by a
    /// restart: its time enters the median window. Phases that popped nothing
    /// or were interrupted never get here, so that they cannot drag the
    /// median down.
    pub fn record_episode(&mut self, run: &mut BlockRun, elapsed: Duration)
        requires
            old(run).stage == BlockStage::Episode,
        ensures
            *final(run) == old(run).at(BlockStage::Done(BlockResult::Success)),
            with_added(
                trimmed(
                    old(self).blocking_time_median@,
                    old(self).blocking_time_median.spec_max_size(),
                    old(self).blocking_time_median.spec_remove_per_side(),
                ),
                elapsed,
                final(self).blocking_time_median@,
            ),
            final(self).blocking_time_median.spec_max_size() == old(
                self,
            ).blocking_time_median.spec_max_size(),
            final(self).blocking_time_median.spec_remove_per_side() == old(
                self,
            ).blocking_time_median.spec_remove_per_side(),
            final(self).statistic.mt.final_median == lower_median(
                final(self).blocking_time_median@,
            ),
            final(self).statistic.mt.median_samples == final(self).blocking_time_median@.len(),
            *final(self) == (IC3 {
                blocking_time_median: final(self).blocking_time_median,
                statistic: Statistic {
                    mt: Mt {
                        final_median: final(self).statistic.mt.final_median,
                        median_samples: final(self).statistic.mt.median_samples,
                        ..old(self).statistic.mt
                    },
                    ..old(self).statistic
                },
                ..*old(self)
            }),
    {
        self.blocking_time_median.add(elapsed);
        self.statistic.mt.final_median = self.blocking_time_median.median();
        self.statistic.mt.median_samples = self.blocking_time_median.count();
        run.stage = BlockStage::Done(BlockResult::Success);
    }

    /// The expansion is at least one and at most the level, or one at level
    /// zero.
    pub open spec fn expansion_within_level(self) -> bool {
        1 <= self.timeframe_expansion <= at_least_one(self.spec_level())
    }
}

/// The checker and the phase after a row of answers.
pub open spec fn after_answers(ic3: IC3, run: BlockRun, events: Seq<BlockEvent>) -> (IC3, BlockRun)
    decreases events.len(),
{
    if events.len() == 0 {
        (ic3, run)
    } else {
        let (i, r) = after_answers(ic3, run, events.drop_last());
        (i.after_answer(events.last()), i.block_next(r, events.last()).0)
    }
}

/// Every answer of the row came when the phase waited for it.
pub open spec fn all_accepted(ic3: IC3, run: BlockRun, events: Seq<BlockEvent>) -> bool
    decreases events.len(),
{
    events.len() > 0 ==> {
        &&& all_accepted(ic3, run, events.drop_last())
        &&& after_answers(ic3, run, events.drop_last()).1.spec_accepts(events.last())
    }
}

/// How many answers say that a lemma was blocked.
pub open spec fn num_blocked(events: Seq<BlockEvent>) -> nat
    decreases events.len(),
{
    if events.len() == 0 {
        0
    } else {
        num_blocked(events.drop_last()) + if events.last() == BlockEvent::Blocked(true) {
            1nat
        } else {
            0
        }
    }
}

/// The phase counts the blocked lemmas.
proof fn lemma_noc_counts(ic3: IC3, run: BlockRun, events: Seq<BlockEvent>)
    requires
        run.noc == 0,
        events.len() < usize::MAX,
    ensures
        after_answers(ic3, run, events).1.noc == num_blocked(events) <= events.len(),
        after_answers(ic3, run, events).1.limit == run.limit,
    decreases events.len(),
{
    if events.len() > 0 {
        lemma_noc_counts(ic3, run, events.drop_last());
    }
}

/// A phase gives up only when an obligation comes out of the queue and more
/// lemmas were blocked than the limit allows; and then it does give up,
/// unless the obligation was removed.
pub proof fn law_limit_counts_blocked_lemmas(
    ic3: IC3,
    run: BlockRun,
    events: Seq<BlockEvent>,
    po: Popped,
)
    requires
        run.noc == 0,
        events.len() < usize::MAX,
        all_accepted(ic3, run, events.push(BlockEvent::Popped(Some(po)))),
    ensures
        after_answers(ic3, run, events.push(BlockEvent::Popped(Some(po)))).1.stage
            == BlockStage::Done(BlockResult::LimitExceeded) <==> !po.removed && (
        run.limit matches Some(limit) && num_blocked(events) > limit),
{
    let all = events.push(BlockEvent::Popped(Some(po)));
    assert(all.drop_last() == events);
    lemma_noc_counts(ic3, run, events);
}

/// The outcome of a phase says why it ended. `Proved` follows a fixpoint.
/// `Failure` follows an obligation that meets the initial states, either in
/// frame 0 or, where the system is abstracted, confirmed by bounded model
/// checking. `LimitExceeded` follows more blocked lemmas than allowed.
/// `Success` follows an empty queue; the phase is measured for the median
/// where it popped anything and was not interrupted by a restart.
pub proof fn law_outcome_has_its_reason(ic3: IC3, run: BlockRun, event: BlockEvent)
    requires
        run.spec_accepts(event),
    ensures
        ({
            let stage = ic3.block_next(run, event).0.stage;
            &&& stage == BlockStage::Done(BlockResult::Proved) <==> event == BlockEvent::Mt(
                MtBlockResult::Proved,
            ) || event == BlockEvent::Generalized(true)
            &&& stage == BlockStage::Done(BlockResult::Failure) <==> event == BlockEvent::Bmc(true)
                || (event == BlockEvent::Init(true) && run.frame == 0 && !ic3.cfg.abs_cst
                && !ic3.cfg.abs_trans)
            &&& stage == BlockStage::Done(BlockResult::LimitExceeded) ==> run.over_limit()
            &&& stage == BlockStage::Done(BlockResult::Success) || stage == BlockStage::Episode
                <==> event == BlockEvent::Popped(None)
            &&& stage == BlockStage::Episode <==> event == BlockEvent::Popped(None)
                && run.popped_any && !ic3.mt_restart_pending
        }),
{
}

/// What was begun is carried through: the next thing to do is determined by
/// what the phase waits for.
pub proof fn law_action_matches_stage(ic3: IC3, run: BlockRun, event: BlockEvent)
    requires
        run.spec_accepts(event),
    ensures
        ({
            let (next, action) = ic3.block_next(run, event);
            match next.stage {
                BlockStage::Pop => action == BlockAction::Pop || action
                    == BlockAction::ForgetThenPop || action == BlockAction::ClearThenPop || action
                    == BlockAction::QueuePredecessorThenPop || action is RaiseThenPop,
                BlockStage::Init => action == BlockAction::QueryInit,
                BlockStage::Bmc => action == BlockAction::RequeueThenBmc(next.depth),
                BlockStage::Solve => action == BlockAction::SolveInit,
                BlockStage::Clock => action == BlockAction::ReadClock,
                BlockStage::Ramp => action == BlockAction::ReadRamp,
                BlockStage::Contained => action == BlockAction::QueryContained,
                BlockStage::Activity => action == BlockAction::BumpActivity,
                BlockStage::Mt => action == BlockAction::MtBlock(ic3.timeframe_expansion),
                BlockStage::Blocked => action == BlockAction::QueryBlocked,
                BlockStage::Generalize => action == BlockAction::Generalize,
                BlockStage::Predecessor => action == BlockAction::FindPredecessor,
                BlockStage::Episode => action == BlockAction::MeasureEpisode,
                BlockStage::Done(result) => action == BlockAction::Finish(result) || action
                    == BlockAction::RequeueThenFinish(result),
            }
        }),
{
}

/// Every step of the checker keeps the expansion between one and the level.
pub proof fn law_expansion_stays_within_level(ic3: IC3, event: BlockEvent)
    requires
        ic3.num_solvers > 0,
        ic3.expansion_within_level(),
    ensures
        ic3.phase_begun().expansion_within_level(),
        ic3.after_answer(event).expansion_within_level(),
        ic3.num_solvers < usize::MAX ==> (IC3 {
            num_solvers: (ic3.num_solvers + 1) as usize,
            ..ic3
        }).expansion_within_level(),
{
    if let BlockEvent::Ramp(ramp) = event {
        crate::multitf::law_ceiling_is_bounded(
            ic3.spec_level(),
            ic3.params.exp_cap,
            ramp as nat,
            ic3.mt_overshoot_used as nat,
        );
    }
}

/// The expansion never exceeds the ceiling, as long as the share of the level
/// that the time ramp grants does not fall. With a fixed expansion there is
/// no ceiling.
pub proof fn law_expansion_stays_under_ceiling(
    ic3: IC3,
    ramp: usize,
    event: BlockEvent,
    later_ramp: usize,
)
    requires
        ic3.num_solvers > 0,
        ic3.cfg.multi_fixed is None,
        ic3.timeframe_expansion <= ic3.spec_ceiling(ramp),
        ramp <= later_ramp,
        event matches BlockEvent::Ramp(granted) ==> granted <= later_ramp,
    ensures
        ic3.after_answer(event).timeframe_expansion <= ic3.after_answer(event).spec_ceiling(
            later_ramp,
        ),
        ic3.phase_begun().timeframe_expansion <= ic3.phase_begun().spec_ceiling(later_ramp),
        ic3.num_solvers < usize::MAX ==> ic3.timeframe_expansion <= (IC3 {
            num_solvers: (ic3.num_solvers + 1) as usize,
            ..ic3
        }).spec_ceiling(later_ramp),
{
    let level = ic3.spec_level();
    let cap = ic3.params.exp_cap;
    let used = ic3.mt_overshoot_used as nat;
    let after = ic3.after_answer(event);
    let begun = ic3.phase_begun();
    crate::multitf::law_ceiling_is_monotone(
        level,
        cap,
        ramp as nat,
        used,
        level,
        later_ramp as nat,
        after.mt_overshoot_used as nat,
    );
    crate::multitf::law_ceiling_is_monotone(
        level,
        cap,
        ramp as nat,
        used,
        level,
        later_ramp as nat,
        used,
    );
    crate::multitf::law_ceiling_is_monotone(
        level,
        cap,
        ramp as nat,
        used,
        level + 1,
        later_ramp as nat,
        used,
    );
    crate::multitf::law_ceiling_is_bounded(
        level,
        cap,
        later_ramp as nat,
        after.mt_overshoot_used as nat,
    );
    crate::multitf::law_ceiling_is_bounded(
        level,
        cap,
        later_ramp as nat,
        begun.mt_overshoot_used as nat,
    );
    if let BlockEvent::Ramp(granted) = event {
        crate::multitf::law_ceiling_is_monotone(
            level,
            cap,
            granted as nat,
            used,
            level,
            later_ramp as nat,
            used,
        );
    }
}

/// A multi-timeframe attempt is made in the last frame only, over at least
/// two timeframes and no more than there are frames below.
pub proof fn law_mt_attempt_fits(ic3: IC3, run: BlockRun, event: BlockEvent, expansion: usize)
    requires
        ic3.num_solvers > 0,
        ic3.expansion_within_level(),
        run.spec_accepts(event),
        ic3.block_next(run, event).1 == BlockAction::MtBlock(expansion),
    ensures
        ic3.cfg.multi_enabled,
        expansion == ic3.timeframe_expansion,
        run.frame == ic3.spec_level(),
        2 <= expansion <= run.frame,
{
}

/// A phase that was interrupted by a restart goes on at the raised expansion:
/// what the restart set is what the next phase starts with.
pub proof fn law_restart_carries_over(ic3: IC3, ramp: usize)
    requires
        ic3.cfg.multi_fixed is None,
    ensures
        ({
            let restarted = ic3.after_answer(BlockEvent::Ramp(ramp));
            let emptied = restarted.after_answer(BlockEvent::Popped(None));
            let resumed = emptied.phase_begun();
            &&& resumed.timeframe_expansion == ic3.deepened(ramp).timeframe_expansion
            &&& resumed.mt_escalations == ic3.deepened(ramp).mt_escalations
            &&& resumed.mt_overshoot_used == ic3.mt_overshoot_used
            &&& !resumed.mt_restart_pending
        }),
{
}

/// A phase that ends without a pending restart leaves single steps and an
/// unscaled threshold behind.
pub proof fn law_finished_phase_leaves_single_steps(ic3: IC3, run: BlockRun)
    requires
        run.spec_accepts(BlockEvent::Popped(None)),
        !ic3.mt_restart_pending,
    ensures
        ({
            let after = ic3.after_answer(BlockEvent::Popped(None));
            let stage = ic3.block_next(run, BlockEvent::Popped(None)).0.stage;
            &&& stage == BlockStage::Done(BlockResult::Success) || stage == BlockStage::Episode
            &&& !after.mt_restart_pending
            &&& after.timeframe_expansion == 1
            &&& after.mt_escalations == 0
        }),
{
}

/// A new phase starts with single steps and an unscaled threshold, and keeps
/// the earned ceiling only at the level where it was earned.
pub proof fn law_new_phase_starts_over(ic3: IC3)
    requires
        ic3.cfg.multi_fixed is None,
        !ic3.mt_restart_pending,
    ensures
        ic3.phase_begun().timeframe_expansion == 1,
        ic3.phase_begun().mt_escalations == 0,
        ic3.phase_begun().mt_overshoot_used == if ic3.mt_overshoot_level == ic3.spec_level() {
            ic3.mt_overshoot_used
        } else {
            0
        },
{
}

/// What the time ramp grants, where an answer says so.
pub open spec fn ramp_in(event: BlockEvent) -> Option<usize> {
    match event {
        BlockEvent::Clock { ramp, .. } => Some(ramp),
        BlockEvent::Ramp(ramp) => Some(ramp),
        _ => None,
    }
}

/// What the time ramp granted last, `ramp` to begin with.
pub open spec fn latest_ramp(ramp: usize, events: Seq<BlockEvent>) -> usize
    decreases events.len(),
{
    if events.len() == 0 {
        ramp
    } else {
        match ramp_in(events.last()) {
            Some(granted) => granted,
            None => latest_ramp(ramp, events.drop_last()),
        }
    }
}

/// The time ramp, `ramp` to begin with, never grants less than before.
pub open spec fn ramp_does_not_fall(ramp: usize, events: Seq<BlockEvent>) -> bool
    decreases events.len(),
{
    events.len() > 0 ==> {
        &&& ramp_does_not_fall(ramp, events.drop_last())
        &&& ramp_in(events.last()) matches Some(granted) ==> latest_ramp(ramp, events.drop_last())
            <= granted
    }
}

/// The queue is empty after a restart, which clears it: the next answer says
/// so.
pub open spec fn restarts_empty_the_queue(events: Seq<BlockEvent>) -> bool {
    forall|k: int|
        0 <= k < events.len() && (#[trigger] events[k] matches BlockEvent::Ramp(_)) ==> k + 1
            < events.len() && events[k + 1] == BlockEvent::Popped(None)
}

impl IC3 {
    /// The expansion lies between one and the ceiling; a phase that is to
    /// restart has room below it; a pending restart has looked over at least
    /// two timeframes; and a phase that ended without one has left single
    /// steps and an unscaled threshold behind.
    pub open spec fn expansion_in_step(self, run: BlockRun, ramp: usize) -> bool {
        &&& self.num_solvers > 0
        &&& self.cfg.multi_fixed is None
        &&& 1 <= self.timeframe_expansion <= self.spec_ceiling(ramp)
        &&& run.stage == BlockStage::Ramp ==> self.timeframe_expansion < self.spec_ceiling(ramp)
        &&& self.mt_restart_pending ==> self.timeframe_expansion >= 2
        &&& (run.stage == BlockStage::Done(BlockResult::Success) || run.stage
            == BlockStage::Episode) && !self.mt_restart_pending ==> self.timeframe_expansion == 1
            && self.mt_escalations == 0
    }
}

/// Every answer keeps the expansion in step, as long as the time ramp does
/// not grant less than before.
pub proof fn law_answers_keep_the_expansion_in_step(
    ic3: IC3,
    run: BlockRun,
    ramp: usize,
    event: BlockEvent,
)
    requires
        ic3.expansion_in_step(run, ramp),
        run.spec_accepts(event),
        ramp_in(event) matches Some(granted) ==> ramp <= granted,
    ensures
        ic3.after_answer(event).expansion_in_step(
            ic3.block_next(run, event).0,
            match ramp_in(event) {
                Some(granted) => granted,
                None => ramp,
            },
        ),
{
    let later: usize = match ramp_in(event) {
        Some(granted) => granted,
        None => ramp,
    };
    law_expansion_stays_under_ceiling(ic3, ramp, event, later);
    crate::multitf::law_ceiling_is_monotone(
        ic3.spec_level(),
        ic3.params.exp_cap,
        ramp as nat,
        ic3.mt_overshoot_used as nat,
        ic3.spec_level(),
        later as nat,
        ic3.mt_overshoot_used as nat,
    );
    crate::multitf::law_ceiling_is_bounded(
        ic3.spec_level(),
        ic3.params.exp_cap,
        later as nat,
        ic3.mt_overshoot_used as nat,
    );
    match event {
        BlockEvent::Clock { elapsed, threshold, ramp: granted } => {
            if ic3.should_restart(elapsed, threshold, granted) {
                crate::multitf::law_restart_strictly_deepens(
                    ic3,
                    elapsed,
                    threshold,
                    granted,
                    granted,
                );
            }
        },
        _ => {},
    }
}

proof fn lemma_rows_keep_in_step(
    ic3: IC3,
    limit: Option<u128>,
    ramp: usize,
    events: Seq<BlockEvent>,
)
    requires
        ic3.num_solvers > 0,
        ic3.cfg.multi_fixed is None,
        1 <= ic3.timeframe_expansion <= ic3.spec_ceiling(ramp),
        ramp_does_not_fall(ramp, events),
        all_accepted(ic3.phase_begun(), BlockRun::started(limit), events),
    ensures
        ({
            let (after, run) = after_answers(
                ic3.phase_begun(),
                BlockRun::started(limit),
                events,
            );
            after.expansion_in_step(run, latest_ramp(ramp, events))
        }),
    decreases events.len(),
{
    let begun = ic3.phase_begun();
    let started = BlockRun::started(limit);
    if events.len() == 0 {
        law_expansion_stays_under_ceiling(ic3, ramp, BlockEvent::Predecessor, ramp);
    } else {
        let front = events.drop_last();
        lemma_rows_keep_in_step(ic3, limit, ramp, front);
        let (before, run) = after_answers(begun, started, front);
        law_answers_keep_the_expansion_in_step(
            before,
            run,
            latest_ramp(ramp, front),
            events.last(),
        );
    }
}

proof fn lemma_pending_ends_the_phase(ic3: IC3, run: BlockRun, events: Seq<BlockEvent>)
    requires
        !ic3.mt_restart_pending,
        all_accepted(ic3, run, events),
        restarts_empty_the_queue(events),
        after_answers(ic3, run, events).0.mt_restart_pending,
    ensures
        after_answers(ic3, run, events).1.stage == BlockStage::Done(BlockResult::Success),
        events.len() > 0,
        events.last() == BlockEvent::Popped(None),
    decreases events.len(),
{
    let front = events.drop_last();
    let last = events.len() - 1;
    assert(events.len() > 0);
    assert(events.last() == events[last]);
    assert(!(events[last] matches BlockEvent::Ramp(_)));
    let (before, before_run) = after_answers(ic3, run, front);
    assert(before.mt_restart_pending);
    assert(front.len() > 0);
    assert(front[last - 1] == events[last - 1]);
    if events[last - 1] matches BlockEvent::Ramp(_) {
        assert(events[last] == BlockEvent::Popped(None));
    } else {
        assert forall|k: int|
            0 <= k < front.len() && (#[trigger] front[k] matches BlockEvent::Ramp(_)) implies k + 1
            < front.len() && front[k + 1] == BlockEvent::Popped(None) by {
            assert(front[k] == events[k]);
            assert(k + 1 < events.len());
            assert(events[k + 1] == BlockEvent::Popped(None));
        }
        lemma_pending_ends_the_phase(ic3, run, front);
        assert(before_run.spec_accepts(events.last()));
    }
}

/// A phase that leaves a restart pending ended in success, with an empty queue
/// and an expansion of at least two; and the next phase starts with that same
/// expansion and the same scaling of the threshold.
pub proof fn law_pending_restart_is_taken_up(
    ic3: IC3,
    limit: Option<u128>,
    ramp: usize,
    events: Seq<BlockEvent>,
)
    requires
        ic3.num_solvers > 0,
        ic3.cfg.multi_fixed is None,
        1 <= ic3.timeframe_expansion <= ic3.spec_ceiling(ramp),
        ramp_does_not_fall(ramp, events),
        restarts_empty_the_queue(events),
        all_accepted(ic3.phase_begun(), BlockRun::started(limit), events),
        after_answers(
            ic3.phase_begun(),
            BlockRun::started(limit),
            events,
        ).0.mt_restart_pending,
    ensures
        ({
            let (after, run) = after_answers(
                ic3.phase_begun(),
                BlockRun::started(limit),
                events,
            );
            &&& run.stage == BlockStage::Done(BlockResult::Success)
            &&& events.len() > 0 && events.last() == BlockEvent::Popped(None)
            &&& after.timeframe_expansion >= 2
            &&& after.phase_begun() == (IC3 { mt_restart_pending: false, ..after })
            &&& after.phase_begun().timeframe_expansion == after.timeframe_expansion
            &&& after.phase_begun().mt_escalations == after.mt_escalations
        }),
{
    lemma_rows_keep_in_step(ic3, limit, ramp, events);
    lemma_pending_ends_the_phase(ic3.phase_begun(), BlockRun::started(limit), events);
}

/// An obligation that was removed is passed over; any other is looked into,
/// with its own frame and depth, unless the limit is exceeded. Where none is
/// left the phase ends.
pub proof fn law_popped_obligations_are_looked_into(ic3: IC3, run: BlockRun, po: Popped)
    requires
        run.stage == BlockStage::Pop,
    ensures
        run.spec_accepts(BlockEvent::Popped(Some(po))) && run.spec_accepts(
            BlockEvent::Popped(None),
        ),
        ({
            let (next, action) = ic3.block_next(run, BlockEvent::Popped(Some(po)));
            let exceeded = run.limit matches Some(limit) && run.noc > limit;
            &&& next.popped_any && next.noc == run.noc && next.limit == run.limit
            &&& po.removed ==> next.stage == BlockStage::Pop && action == BlockAction::Pop
            &&& !po.removed && exceeded ==> next.stage == BlockStage::Done(
                BlockResult::LimitExceeded,
            )
            &&& !po.removed && !exceeded ==> next.stage == BlockStage::Init && next.frame
                == po.frame && next.depth == po.depth
        }),
        ({
            let (next, action) = ic3.block_next(run, BlockEvent::Popped(None));
            let measured = run.popped_any && !ic3.mt_restart_pending;
            &&& measured ==> next.stage == BlockStage::Episode
            &&& !measured ==> next.stage == BlockStage::Done(BlockResult::Success)
        }),
{
}

/// An obligation that meets the initial states is a failure in frame 0; above
/// it, the initial states are asked again; and where the system is abstracted,
/// bounded model checking to the obligation's own depth decides. An obligation
/// that does not meet them goes on.
pub proof fn law_initial_states_decide(ic3: IC3, run: BlockRun, meets: bool)
    requires
        run.stage == BlockStage::Init,
    ensures
        run.spec_accepts(BlockEvent::Init(meets)),
        ({
            let (next, action) = ic3.block_next(run, BlockEvent::Init(meets));
            let abstracted = ic3.cfg.abs_cst || ic3.cfg.abs_trans;
            &&& !meets <==> next.stage == BlockStage::Clock
            &&& meets && abstracted <==> next.stage == BlockStage::Bmc
            &&& meets && !abstracted && run.frame > 0 <==> next.stage == BlockStage::Solve
            &&& meets && !abstracted && run.frame == 0 <==> next.stage == BlockStage::Done(
                BlockResult::Failure,
            )
            &&& meets && abstracted ==> action == BlockAction::RequeueThenBmc(run.depth)
            &&& meets && !abstracted && run.frame == 0 ==> action
                == BlockAction::RequeueThenFinish(BlockResult::Failure)
        }),
{
}

/// A counterexample that bounded model checking confirms is a failure; one
/// that it does not makes the phase forget its obligations and go on.
pub proof fn law_model_checking_decides(ic3: IC3, run: BlockRun, confirmed: bool)
    requires
        run.stage == BlockStage::Bmc,
    ensures
        run.spec_accepts(BlockEvent::Bmc(confirmed)),
        ({
            let (next, action) = ic3.block_next(run, BlockEvent::Bmc(confirmed));
            &&& confirmed <==> next.stage == BlockStage::Done(BlockResult::Failure)
            &&& !confirmed <==> next.stage == BlockStage::Pop
            &&& !confirmed ==> action == BlockAction::ForgetThenPop
        }),
{
}

/// A restart clears the queue, is carried into the next phase, and takes the
/// expansion that the ramp then allows; without one the frames are asked.
pub proof fn law_clock_decides(
    ic3: IC3,
    run: BlockRun,
    elapsed: Duration,
    threshold: Duration,
    ramp: usize,
)
    ensures
        run.stage == BlockStage::Solve ==> run.spec_accepts(BlockEvent::NoInitialState)
            && ic3.block_next(run, BlockEvent::NoInitialState).0.stage == BlockStage::Clock,
        run.stage == BlockStage::Clock ==> {
            let event = BlockEvent::Clock { elapsed, threshold, ramp };
            let next = ic3.block_next(run, event).0;
            &&& run.spec_accepts(event)
            &&& ic3.should_restart(elapsed, threshold, ramp) <==> next.stage == BlockStage::Ramp
            &&& !ic3.should_restart(elapsed, threshold, ramp) <==> next.stage
                == BlockStage::Contained
            &&& elapsed@ <= threshold@ ==> next.stage == BlockStage::Contained
        },
        run.stage == BlockStage::Ramp ==> {
            let (next, action) = ic3.block_next(run, BlockEvent::Ramp(ramp));
            let after = ic3.after_answer(BlockEvent::Ramp(ramp));
            &&& run.spec_accepts(BlockEvent::Ramp(ramp))
            &&& next.stage == BlockStage::Pop
            &&& action == BlockAction::ClearThenPop
            &&& after.mt_restart_pending
            &&& after.timeframe_expansion == ic3.deepened(ramp).timeframe_expansion
            &&& after.mt_escalations == ic3.deepened(ramp).mt_escalations
        },
{
}

/// A lemma that a frame contains goes to the frame after it, one that all
/// frames contain is done with, and any other is worked on.
pub proof fn law_containment_decides(ic3: IC3, run: BlockRun, by: Option<Option<usize>>)
    requires
        run.stage == BlockStage::Contained,
        by != Some(Some(usize::MAX)),
    ensures
        run.spec_accepts(BlockEvent::Contained(by)),
        ({
            let (next, action) = ic3.block_next(run, BlockEvent::Contained(by));
            &&& by is None <==> next.stage == BlockStage::Activity
            &&& by is Some <==> next.stage == BlockStage::Pop
            &&& by == Some(None::<usize>) ==> action == BlockAction::Pop
            &&& by matches Some(Some(frame)) ==> (action matches BlockAction::RaiseThenPop(to) && to
                == frame + 1)
        }),
{
}

/// An overly active obligation is dropped where that is asked for; otherwise
/// it is blocked, over several timeframes exactly where those are enabled, the
/// obligation is in the last frame and the expansion is more than one.
pub proof fn law_activity_decides(ic3: IC3, run: BlockRun, act: Double)
    requires
        ic3.num_solvers > 0,
        run.stage == BlockStage::Activity,
    ensures
        run.spec_accepts(BlockEvent::Activity(act)),
        ({
            let (next, action) = ic3.block_next(run, BlockEvent::Activity(act));
            let dropped = ic3.cfg.drop_po && (Double { bits: TWENTY }).spec_lt(act);
            let wide = ic3.cfg.multi_enabled && run.frame + 1 == ic3.num_solvers
                && ic3.timeframe_expansion > 1;
            &&& dropped <==> next.stage == BlockStage::Pop
            &&& !dropped && wide <==> next.stage == BlockStage::Mt
            &&& !dropped && !wide <==> next.stage == BlockStage::Blocked
            &&& next.stage == BlockStage::Mt ==> action == BlockAction::MtBlock(
                ic3.timeframe_expansion,
            )
        }),
{
}

/// An attempt over several timeframes that handled the obligation is done, one
/// that proved the property ends the phase, and one that fell back is followed
/// by single steps.
pub proof fn law_attempt_decides(ic3: IC3, run: BlockRun, result: MtBlockResult)
    requires
        run.stage == BlockStage::Mt,
    ensures
        run.spec_accepts(BlockEvent::Mt(result)),
        ({
            let next = ic3.block_next(run, BlockEvent::Mt(result)).0;
            &&& result is Proved <==> next.stage == BlockStage::Done(BlockResult::Proved)
            &&& result is Handled <==> next.stage == BlockStage::Pop
            &&& result is Fallback <==> next.stage == BlockStage::Blocked
            &&& next.noc == run.noc
        }),
{
}

/// A blocked obligation is generalised and counted, and a fixpoint ends the
/// phase; one that is not blocked gets a predecessor, and both are queued.
pub proof fn law_single_step_decides(ic3: IC3, run: BlockRun, answer: bool)
    ensures
        run.stage == BlockStage::Blocked ==> {
            let (next, action) = ic3.block_next(run, BlockEvent::Blocked(answer));
            &&& run.spec_accepts(BlockEvent::Blocked(answer))
            &&& answer <==> next.stage == BlockStage::Generalize
            &&& !answer <==> next.stage == BlockStage::Predecessor
            &&& answer && run.noc < usize::MAX ==> next.noc == run.noc + 1
            &&& !answer ==> next.noc == run.noc
        },
        run.stage == BlockStage::Generalize ==> {
            let next = ic3.block_next(run, BlockEvent::Generalized(answer)).0;
            &&& run.spec_accepts(BlockEvent::Generalized(answer))
            &&& answer <==> next.stage == BlockStage::Done(BlockResult::Proved)
            &&& !answer <==> next.stage == BlockStage::Pop
        },
        run.stage == BlockStage::Predecessor ==> {
            let (next, action) = ic3.block_next(run, BlockEvent::Predecessor);
            &&& run.spec_accepts(BlockEvent::Predecessor)
            &&& next.stage == BlockStage::Pop
            &&& action == BlockAction::QueuePredecessorThenPop
        },
{
}

/// The phase waits for one kind of answer at a time and for none once it has
/// ended. Only popping changes the obligation in hand, only a blocked lemma
/// the count, and nothing the limit.
pub proof fn law_answers_change_nothing_else(ic3: IC3, run: BlockRun, event: BlockEvent)
    requires
        run.spec_accepts(event),
    ensures
        !(run.stage is Done) && run.stage != BlockStage::Episode,
        event is Popped <==> run.stage == BlockStage::Pop,
        event is Init <==> run.stage == BlockStage::Init,
        event is Bmc <==> run.stage == BlockStage::Bmc,
        event is NoInitialState <==> run.stage == BlockStage::Solve,
        event is Clock <==> run.stage == BlockStage::Clock,
        event is Ramp <==> run.stage == BlockStage::Ramp,
        event is Contained <==> run.stage == BlockStage::Contained,
        event is Activity <==> run.stage == BlockStage::Activity,
        event is Mt <==> run.stage == BlockStage::Mt,
        event is Blocked <==> run.stage == BlockStage::Blocked,
        event is Generalized <==> run.stage == BlockStage::Generalize,
        event is Predecessor <==> run.stage == BlockStage::Predecessor,
        ({
            let next = ic3.block_next(run, event).0;
            &&& next.limit == run.limit
            &&& !(event is Popped) ==> next.frame == run.frame && next.depth == run.depth
                && next.popped_any == run.popped_any
            &&& event != BlockEvent::Blocked(true) ==> next.noc == run.noc
        }),
{
}

/// Only the clock, a restart and the end of the queue change the checker, and
/// these only what they are about.
pub proof fn law_answers_keep_the_checker(ic3: IC3, event: BlockEvent)
    ensures
        ({
            let after = ic3.after_answer(event);
            &&& after.cfg == ic3.cfg && after.params == ic3.params
            &&& after.num_solvers == ic3.num_solvers && after.rng == ic3.rng
            &&& after.blocking_time_median == ic3.blocking_time_median
            &&& !(event is Clock) && !(event is Ramp) && event != BlockEvent::Popped(None)
                ==> after == ic3
            &&& event == BlockEvent::Popped(None) && ic3.mt_restart_pending ==> after == ic3
            &&& event == BlockEvent::Popped(None) && !ic3.mt_restart_pending
                ==> after.timeframe_expansion == 1 && after.mt_escalations == 0
                && after.mt_overshoot_used == ic3.mt_overshoot_used && after.mt_overshoot_level
                == ic3.mt_overshoot_level && after.statistic == ic3.statistic
            &&& event is Clock ==> after.timeframe_expansion == ic3.timeframe_expansion
                && after.mt_escalations == ic3.mt_escalations && after.mt_restart_pending
                == ic3.mt_restart_pending
            &&& event is Ramp ==> after.mt_overshoot_used == ic3.mt_overshoot_used
                && after.mt_overshoot_level == ic3.mt_overshoot_level && after.statistic
                == ic3.statistic
            &&& !(event is Ramp) ==> after.mt_restart_pending == ic3.mt_restart_pending
        }),
{
}

/// A fixed expansion is the configured one, but no more than the level and no
/// less than one, and nothing else of the checker changes as a phase begins.
pub proof fn law_fixed_expansion_is_taken(ic3: IC3, fixed: usize)
    requires
        ic3.num_solvers > 0,
        ic3.cfg.multi_fixed == Some(fixed),
    ensures
        ({
            let begun = ic3.phase_begun();
            let e = begun.timeframe_expansion;
            &&& e >= 1
            &&& e > 1 ==> e <= fixed && e + 1 <= ic3.num_solvers
            &&& e == 1 || e == fixed || e + 1 == ic3.num_solvers
            &&& 1 <= fixed && fixed + 1 <= ic3.num_solvers ==> e == fixed
            &&& ic3.num_solvers >= 2 && fixed + 1 >= ic3.num_solvers ==> e + 1 == ic3.num_solvers
            &&& begun == (IC3 { timeframe_expansion: e, ..ic3 })
        }),
{
}

/// A phase begins with no obligation popped, none blocked and its limit, and
/// with popping.
pub proof fn law_phase_begins_with_popping(limit: Option<u128>)
    ensures
        ({
            let run = BlockRun::started(limit);
            &&& run.stage == BlockStage::Pop
            &&& run.limit == limit
            &&& run.noc == 0
            &&& !run.popped_any
        }),
{
}

/// The queue is touched for a reason only: it is forgotten where bounded model
/// checking refutes a counterexample, cleared at a restart, an obligation is
/// raised where a frame contains its lemma, a predecessor is queued where one
/// was found, and an obligation is put back where it meets the initial states.
/// Everything else just pops the next one or ends the phase.
pub proof fn law_queue_is_touched_for_a_reason(ic3: IC3, run: BlockRun, event: BlockEvent)
    requires
        run.spec_accepts(event),
    ensures
        ({
            let (next, action) = ic3.block_next(run, event);
            &&& action == BlockAction::ForgetThenPop <==> event == BlockEvent::Bmc(false)
            &&& action == BlockAction::ClearThenPop <==> event is Ramp
            &&& action == BlockAction::QueuePredecessorThenPop <==> event is Predecessor
            &&& action is RaiseThenPop <==> (event matches BlockEvent::Contained(Some(Some(_))))
            &&& action is RequeueThenBmc <==> event == BlockEvent::Init(true) && (ic3.cfg.abs_cst
                || ic3.cfg.abs_trans)
            &&& action is RequeueThenFinish <==> event == BlockEvent::Init(true)
                && !ic3.cfg.abs_cst && !ic3.cfg.abs_trans && run.frame == 0
        }),
{
}

/// Beginning a phase that no restart left pending changes the expansion, the
/// scaling and the earned doublings alone; one that a restart left pending
/// goes on as it was, and is pending no more.
pub proof fn law_beginning_changes_nothing_else(ic3: IC3)
    requires
        ic3.num_solvers > 0,
        ic3.cfg.multi_fixed is None,
    ensures
        ({
            let begun = ic3.phase_begun();
            &&& !begun.mt_restart_pending
            &&& ic3.mt_restart_pending ==> begun == (IC3 { mt_restart_pending: false, ..ic3 })
            &&& !ic3.mt_restart_pending ==> begun == (IC3 {
                timeframe_expansion: 1,
                mt_escalations: 0,
                mt_overshoot_used: begun.mt_overshoot_used,
                mt_overshoot_level: begun.mt_overshoot_level,
                ..ic3
            })
            &&& !ic3.mt_restart_pending && ic3.mt_overshoot_level + 1 == ic3.num_solvers
                ==> begun.mt_overshoot_used == ic3.mt_overshoot_used && begun.mt_overshoot_level
                == ic3.mt_overshoot_level
            &&& !ic3.mt_restart_pending && ic3.mt_overshoot_level + 1 != ic3.num_solvers
                ==> begun.mt_overshoot_used == 0 && begun.mt_overshoot_level == usize::MAX
        }),
{
}

} // verus!
