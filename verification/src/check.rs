//! The main loop: blocking, extending, propagating.

use vstd::prelude::*;

use crate::block::BlockResult;
use crate::ic3::IC3;
use crate::lemma::{Link, LinkView};
use crate::lit::{ordered, Lit};
use crate::luby::{luby_exponent, power_of_two, restart_limit};

verus! {

/// What the main loop waits for.
#[derive(Clone, Copy, PartialEq, Eq, Structural, Debug)]
pub enum CheckStage {
    /// The result of a blocking phase.
    Block,
    /// A bad state in the last frame.
    Bad,
    /// Whether propagating the lemmas closed a fixpoint.
    Propagate,
    /// That lemmas were propagated to the infinite frame.
    PropagateToInf,
    /// That the invariant was verified.
    Verify,
    /// Nothing: whether the property holds.
    Done(bool),
}

/// An answer that the main loop waited for.
pub enum CheckEvent {
    /// The result of a blocking phase.
    Blocked(BlockResult),
    /// A bad state in the last frame and the inputs that show it, where there
    /// is one.
    Bad(Option<(Vec<Lit>, Vec<Lit>)>),
    /// Whether propagating the lemmas closed a fixpoint.
    Propagated(bool),
    /// Lemmas were propagated to the infinite frame.
    PropagatedToInf,
    /// The invariant was verified.
    Verified,
}

/// The main loop.
pub struct CheckRun {
    /// The obligation that is to be queued before the next blocking phase.
    pub obligation: Option<Link>,
    pub stage: CheckStage,
}

/// The mathematical view of the main loop.
#[verifier::ext_equal]
pub struct CheckView {
    /// The last frame.
    pub level: nat,
    pub obligation: Option<LinkView>,
    pub stage: CheckStage,
}

impl CheckView {
    /// The main loop with the first frame.
    pub open spec fn start() -> CheckView {
        CheckView { level: 0, obligation: None, stage: CheckStage::Block }
    }

    /// The main loop waits for this answer.
    pub open spec fn accepts(self, event: CheckEvent) -> bool {
        match event {
            CheckEvent::Blocked(_) => self.stage == CheckStage::Block,
            CheckEvent::Bad(_) => self.stage == CheckStage::Bad,
            CheckEvent::Propagated(_) => self.stage == CheckStage::Propagate,
            CheckEvent::PropagatedToInf => self.stage == CheckStage::PropagateToInf,
            CheckEvent::Verified => self.stage == CheckStage::Verify,
        }
    }

    /// The main loop after an answer. A failed phase refutes the property, a
    /// fixpoint proves it. Otherwise a bad state in the last frame becomes an
    /// obligation; without one a frame is added and the lemmas are propagated.
    pub open spec fn after(self, event: CheckEvent) -> CheckView {
        let next = |stage: CheckStage| CheckView { level: self.level, obligation: None, stage };
        match event {
            CheckEvent::Blocked(BlockResult::Failure) => next(CheckStage::Done(false)),
            CheckEvent::Blocked(BlockResult::Proved) => next(CheckStage::Verify),
            CheckEvent::Blocked(_) => next(CheckStage::Bad),
            CheckEvent::Bad(Some((bad, inputs))) => CheckView {
                level: self.level,
                obligation: Some(LinkView::of(self.level, bad@, inputs@, 0)),
                stage: CheckStage::Block,
            },
            CheckEvent::Bad(None) => CheckView {
                level: self.level + 1,
                obligation: None,
                stage: CheckStage::Propagate,
            },
            CheckEvent::Propagated(true) => next(CheckStage::Verify),
            CheckEvent::Propagated(false) => next(CheckStage::PropagateToInf),
            CheckEvent::PropagatedToInf => next(CheckStage::Block),
            CheckEvent::Verified => next(CheckStage::Done(true)),
        }
    }

    /// The main loop after a row of answers.
    pub open spec fn after_all(self, events: Seq<CheckEvent>) -> CheckView
        decreases events.len(),
    {
        if events.len() == 0 {
            self
        } else {
            self.after_all(events.drop_last()).after(events.last())
        }
    }

    /// Every answer of the row came when the main loop waited for it.
    pub open spec fn accepts_all(self, events: Seq<CheckEvent>) -> bool
        decreases events.len(),
    {
        events.len() > 0 ==> {
            &&& self.accepts_all(events.drop_last())
            &&& self.after_all(events.drop_last()).accepts(events.last())
        }
    }
}

impl CheckRun {
    /// The main loop of a checker at the given level.
    pub open spec fn at_level(self, level: nat) -> CheckView {
        CheckView {
            level,
            obligation: match self.obligation {
                Some(link) => Some(link@),
                None => None,
            },
            stage: self.stage,
        }
    }

    /// Whether the main loop waits for this answer.
    pub fn accepts(&self, event: &CheckEvent) -> (r: bool)
        ensures
            forall|level: nat| r == (#[trigger] self.at_level(level)).accepts(*event),
    {
        match event {
            CheckEvent::Blocked(_) => self.stage == CheckStage::Block,
            CheckEvent::Bad(_) => self.stage == CheckStage::Bad,
            CheckEvent::Propagated(_) => self.stage == CheckStage::Propagate,
            CheckEvent::PropagatedToInf => self.stage == CheckStage::PropagateToInf,
            CheckEvent::Verified => self.stage == CheckStage::Verify,
        }
    }
}

impl IC3 {
    /// Starts the main loop with the first frame.
    pub fn check(&mut self) -> (r: CheckRun)
        requires
            old(self).num_solvers == 0,
        ensures
            r.at_level(final(self).spec_level()) == CheckView::start(),
            r.stage == CheckStage::Block,
            r.obligation is None,
            final(self).num_solvers == 1,
            *final(self) == (IC3 { num_solvers: 1, ..*old(self) }),
    {
        let _ = self.base();
        CheckRun { obligation: None, stage: CheckStage::Block }
    }

    /// Takes an answer in the main loop.
    pub fn check_step(&mut self, run: &mut CheckRun, event: CheckEvent)
        requires
            old(self).num_solvers > 0,
            event == CheckEvent::Bad(None) ==> old(self).num_solvers < usize::MAX,
            old(run).at_level(old(self).spec_level()).accepts(event),
        ensures
            final(run).at_level(final(self).spec_level()) == old(run).at_level(
                old(self).spec_level(),
            ).after(event),
            *final(self) == (IC3 { num_solvers: final(self).num_solvers, ..*old(self) }),
            final(self).num_solvers > 0,
            event == CheckEvent::Bad(None) ==> final(self).num_solvers == old(self).num_solvers + 1,
            event != CheckEvent::Bad(None) ==> final(self).num_solvers == old(self).num_solvers,
            event == CheckEvent::Blocked(BlockResult::Failure) <==> final(run).stage
                == CheckStage::Done(false),
            event == CheckEvent::Verified <==> final(run).stage == CheckStage::Done(true),
            event == CheckEvent::Blocked(BlockResult::Proved) || event == CheckEvent::Propagated(
                true,
            ) <==> final(run).stage == CheckStage::Verify,
            final(run).obligation is Some <==> (event matches CheckEvent::Bad(Some(_))),
    {
        run.obligation = None;
        match event {
            CheckEvent::Blocked(result) => {
                run.stage = match result {
                    BlockResult::Failure => CheckStage::Done(false),
                    BlockResult::Proved => CheckStage::Verify,
                    BlockResult::Success => CheckStage::Bad,
                    BlockResult::LimitExceeded => CheckStage::Bad,
                };
            },
            CheckEvent::Bad(found) => match found {
                Some((bad, inputs)) => {
                    run.obligation = Some(Link::bad_state(self.level(), bad, inputs));
                    run.stage = CheckStage::Block;
                },
                None => {
                    self.extend();
                    run.stage = CheckStage::Propagate;
                },
            },
            CheckEvent::Propagated(fixpoint) => {
                run.stage = if fixpoint {
                    CheckStage::Verify
                } else {
                    CheckStage::PropagateToInf
                };
            },
            CheckEvent::PropagatedToInf => {
                run.stage = CheckStage::Block;
            },
            CheckEvent::Verified => {
                run.stage = CheckStage::Done(true);
            },
        }
    }
}

/// The frames that were added: one for each time that the last frame had no
/// bad state left.
pub open spec fn num_extended(events: Seq<CheckEvent>) -> nat
    decreases events.len(),
{
    if events.len() == 0 {
        0
    } else {
        num_extended(events.drop_last()) + if events.last() matches CheckEvent::Bad(None) {
            1nat
        } else {
            0
        }
    }
}

/// The level is the number of times that the last frame had no bad state
/// left: the checker never goes up otherwise, and never goes down.
pub proof fn law_level_counts_clean_frames(start: CheckView, events: Seq<CheckEvent>)
    ensures
        start.after_all(events).level == start.level + num_extended(events),
    decreases events.len(),
{
    if events.len() > 0 {
        law_level_counts_clean_frames(start, events.drop_last());
    }
}

/// The property is refuted only by a failed blocking phase, and proved only by
/// a fixpoint, found in a blocking phase or by propagation, that was
/// verified.
pub proof fn law_verdict_has_its_reason(start: CheckView, events: Seq<CheckEvent>, holds: bool)
    requires
        start == CheckView::start(),
        start.accepts_all(events),
        start.after_all(events).stage == CheckStage::Done(holds),
    ensures
        ({
            let n = events.len() as int;
            if holds {
                &&& n >= 2
                &&& events[n - 1] == CheckEvent::Verified
                &&& events[n - 2] == CheckEvent::Blocked(BlockResult::Proved) || events[n - 2]
                    == CheckEvent::Propagated(true)
            } else {
                n >= 1 && events[n - 1] == CheckEvent::Blocked(BlockResult::Failure)
            }
        }),
{
    let front = events.drop_last();
    assert(events.len() > 0);
    assert(events.last() == events[events.len() - 1]);
    if holds {
        assert(start.accepts_all(front));
        assert(start.after_all(front).stage == CheckStage::Verify);
        assert(front.len() > 0);
        assert(front.last() == events[events.len() - 2]);
        let before = start.after_all(front.drop_last());
        assert(before.accepts(front.last()));
        assert(start.after_all(front) == before.after(front.last()));
    }
}

/// A bad state in the last frame is always taken up: it becomes an obligation
/// in that frame, at distance 0, before the next blocking phase.
pub proof fn law_bad_states_become_obligations(view: CheckView, bad: Vec<Lit>, inputs: Vec<Lit>)
    requires
        view.stage == CheckStage::Bad,
    ensures
        ({
            let next = view.after(CheckEvent::Bad(Some((bad, inputs))));
            &&& next.stage == CheckStage::Block
            &&& next.level == view.level
            &&& next.obligation == Some(LinkView::of(view.level, bad@, inputs@, 0))
        }),
{
}

/// Blocking with restarts: a phase that blocks more obligations than its limit
/// is cut short, and the limits follow the Luby sequence.
pub struct RestartRun {
    /// How often the limit was exceeded.
    pub restart: usize,
    /// How the last phase ended, where that ends the run.
    pub result: Option<BlockResult>,
}

/// The frame to which the queue is cleared after a restart: two above the
/// highest obligation, and below the last.
pub open spec fn backtrack_frame(level: nat, peak: Option<nat>) -> int {
    match peak {
        Some(frame) => if frame + 2 < level - 1 {
            frame + 2int
        } else {
            level - 1
        },
        None => level - 1,
    }
}

impl RestartRun {
    /// Before the first phase.
    pub fn block_with_restart() -> (r: RestartRun)
        ensures
            r.restart == 0,
            r.result is None,
    {
        RestartRun { restart: 0, result: None }
    }

    /// The limit of the next phase.
    pub fn limit(&self) -> (r: u128)
        requires
            self.restart < usize::MAX,
        ensures
            r == 100 * power_of_two(luby_exponent(self.restart as nat)),
    {
        restart_limit(self.restart)
    }

    /// Takes the result of a phase, and the frame of the highest obligation
    /// in the queue where there is one. Where the limit was exceeded, gives
    /// the frame to which the queue is to be cleared.
    pub fn step(
        &mut self,
        ic3: &IC3,
        result: BlockResult,
        peak: Option<usize>,
    ) -> (r: Option<usize>)
        requires
            old(self).restart < usize::MAX,
            result == BlockResult::LimitExceeded ==> ic3.num_solvers > 1,
        ensures
            result == BlockResult::LimitExceeded ==> {
                &&& *final(self) == (RestartRun {
                    restart: (old(self).restart + 1) as usize,
                    ..*old(self)
                })
                &&& r matches Some(frame) && frame == backtrack_frame(
                    ic3.spec_level(),
                    match peak {
                        Some(p) => Some(p as nat),
                        None => None,
                    },
                )
                &&& r->0 + 1 < ic3.num_solvers
                &&& peak matches Some(p) ==> r->0 <= p + 2
                &&& r->0 + 2 == ic3.num_solvers || (peak matches Some(p) && r->0 == p + 2)
            },
            result != BlockResult::LimitExceeded ==> {
                &&& *final(self) == (RestartRun { result: Some(result), ..*old(self) })
                &&& r is None
            },
    {
        match result {
            BlockResult::LimitExceeded => {
                self.restart = self.restart + 1;
                let below: usize = ic3.level() - 1;
                match peak {
                    Some(frame) => {
                        if below >= 2 && frame < below - 2 {
                            Some(frame + 2)
                        } else {
                            Some(below)
                        }
                    },
                    None => Some(below),
                }
            },
            _ => {
                self.result = Some(result);
                None
            },
        }
    }
}

/// The frame to which the queue is cleared is below the last and at most two
/// above the highest obligation; it is two above it wherever that is below
/// the last.
pub proof fn law_backtracking_stays_below_the_level(level: nat, frame: nat)
    requires
        level >= 1,
    ensures
        0 <= backtrack_frame(level, Some(frame)) < level,
        backtrack_frame(level, Some(frame)) <= frame + 2,
        backtrack_frame(level, Some(frame)) <= backtrack_frame(level, None),
        frame + 2 < level ==> backtrack_frame(level, Some(frame)) == frame + 2,
{
}

/// Whenever the main loop waits for the result of a blocking phase, at any
/// level, a failure refutes the property, a fixpoint is taken to its
/// verification, and any other result leads to the search for a bad state.
pub proof fn law_phase_result_decides(view: CheckView, result: BlockResult)
    requires
        view.stage == CheckStage::Block,
    ensures
        view.accepts(CheckEvent::Blocked(result)),
        ({
            let next = view.after(CheckEvent::Blocked(result));
            &&& next.level == view.level
            &&& next.obligation is None
            &&& result is Failure <==> next.stage == CheckStage::Done(false)
            &&& result is Proved <==> next.stage == CheckStage::Verify
            &&& result is Success || result is LimitExceeded <==> next.stage == CheckStage::Bad
        }),
{
}

/// A last frame without a bad state is closed by one more frame and by
/// propagation; one with a bad state is blocked again at the same level.
pub proof fn law_bad_state_decides(view: CheckView, bad: Vec<Lit>, inputs: Vec<Lit>)
    requires
        view.stage == CheckStage::Bad,
    ensures
        view.accepts(CheckEvent::Bad(None)),
        view.accepts(CheckEvent::Bad(Some((bad, inputs)))),
        ({
            let next = view.after(CheckEvent::Bad(None));
            &&& next.level == view.level + 1
            &&& next.obligation is None
            &&& next.stage == CheckStage::Propagate
        }),
        ({
            let next = view.after(CheckEvent::Bad(Some((bad, inputs))));
            &&& next.level == view.level
            &&& next.stage == CheckStage::Block
            &&& next.obligation matches Some(link)
            &&& link.frame == view.level
            &&& link.depth == 0
            &&& link.input == inputs@
            &&& ordered(link.lemma)
            &&& link.lemma.to_multiset() == bad@.to_multiset()
        }),
{
    crate::lit::law_ordering_keeps_the_literals(bad@);
}

/// A fixpoint of the propagation is taken to its verification, and a verified
/// invariant proves the property; without a fixpoint the next blocking phase
/// follows, and the level stays.
pub proof fn law_propagation_decides(view: CheckView, fixpoint: bool)
    ensures
        view.stage == CheckStage::Propagate ==> {
            let event = CheckEvent::Propagated(fixpoint);
            &&& view.accepts(event)
            &&& view.after(event).level == view.level
            &&& fixpoint <==> view.after(event).stage == CheckStage::Verify
            &&& !fixpoint <==> view.after(event).stage == CheckStage::PropagateToInf
        },
        view.stage == CheckStage::PropagateToInf ==> {
            &&& view.accepts(CheckEvent::PropagatedToInf)
            &&& view.after(CheckEvent::PropagatedToInf).level == view.level
            &&& view.after(CheckEvent::PropagatedToInf).obligation is None
            &&& view.after(CheckEvent::PropagatedToInf).stage == CheckStage::Block
        },
        view.stage == CheckStage::Verify ==> {
            &&& view.accepts(CheckEvent::Verified)
            &&& view.after(CheckEvent::Verified).level == view.level
            &&& view.after(CheckEvent::Verified).stage == CheckStage::Done(true)
        },
{
}

/// The main loop waits for one kind of answer at a time, and for none once
/// the verdict is given.
pub proof fn law_verdict_is_final(view: CheckView, event: CheckEvent)
    requires
        view.accepts(event),
    ensures
        !(view.stage is Done),
        event is Blocked <==> view.stage == CheckStage::Block,
        event is Bad <==> view.stage == CheckStage::Bad,
        event is Propagated <==> view.stage == CheckStage::Propagate,
        event is PropagatedToInf <==> view.stage == CheckStage::PropagateToInf,
        event is Verified <==> view.stage == CheckStage::Verify,
{
}

/// The main loop begins at frame 0 with a blocking phase and no obligation.
pub proof fn law_main_loop_begins_with_blocking()
    ensures
        CheckView::start().level == 0,
        CheckView::start().obligation is None,
        CheckView::start().stage == CheckStage::Block,
{
}

} // verus!
