//! What holds of the expansion throughout the life of a checker: over all its
//! blocking phases, from the first frame on.

use rand::rngs::StdRng;
use vstd::prelude::*;

use crate::block::{ramp_in, BlockEvent, BlockResult, BlockRun, BlockStage};
use crate::ic3::{Config, IC3};
use crate::multitf::smaller;
use crate::params::MtParams;
use crate::percentile::BoundedMedianCalculator;
use crate::statistic::{bumped, Statistic};

verus! {

/// Something that moves a checker on.
pub enum Move {
    /// A frame is added.
    Extend,
    /// A blocking phase begins.
    Begin(Option<u128>),
    /// The phase takes an answer.
    Answer(BlockEvent),
    /// The time of the finished phase enters the median window.
    Record(BoundedMedianCalculator, Statistic),
    /// Work on an obligation counts events and draws random numbers.
    Work(Statistic, StdRng),
}

/// A checker and its latest blocking phase.
pub struct Moment {
    pub ic3: IC3,
    pub run: BlockRun,
}

impl Moment {
    /// A fresh checker, before its first frame.
    pub open spec fn dawn(ic3: IC3) -> Moment {
        Moment { ic3, run: BlockRun::started(None).at(BlockStage::Done(BlockResult::Success)) }
    }

    /// Frames are added and phases begin between phases, and a phase gets the
    /// answers that it waits for.
    pub open spec fn allows(self, step: Move) -> bool {
        match step {
            Move::Extend => self.run.stage is Done && self.ic3.num_solvers < usize::MAX,
            Move::Begin(_) => self.run.stage is Done && self.ic3.num_solvers > 0,
            Move::Answer(event) => self.run.spec_accepts(event),
            Move::Record(_, _) => self.run.stage == BlockStage::Episode,
            Move::Work(_, _) => true,
        }
    }

    /// The checker and its phase after a move.
    pub open spec fn after(self, step: Move) -> Moment {
        match step {
            Move::Extend => Moment {
                ic3: IC3 { num_solvers: (self.ic3.num_solvers + 1) as usize, ..self.ic3 },
                ..self
            },
            Move::Begin(limit) => Moment {
                ic3: self.ic3.phase_begun(),
                run: BlockRun::started(limit),
            },
            Move::Answer(event) => Moment {
                ic3: self.ic3.after_answer(event),
                run: self.ic3.block_next(self.run, event).0,
            },
            Move::Record(blocking_time_median, statistic) => Moment {
                ic3: IC3 { blocking_time_median, statistic, ..self.ic3 },
                run: self.run.at(BlockStage::Done(BlockResult::Success)),
            },
            Move::Work(statistic, rng) => Moment {
                ic3: IC3 { statistic, rng, ..self.ic3 },
                ..self
            },
        }
    }

    /// The checker and its phase after a row of moves.
    pub open spec fn after_all(self, moves: Seq<Move>) -> Moment
        decreases moves.len(),
    {
        if moves.len() == 0 {
            self
        } else {
            self.after_all(moves.drop_last()).after(moves.last())
        }
    }

    /// Every move of the row came when it was allowed.
    pub open spec fn allows_all(self, moves: Seq<Move>) -> bool
        decreases moves.len(),
    {
        moves.len() > 0 ==> {
            &&& self.allows_all(moves.drop_last())
            &&& self.after_all(moves.drop_last()).allows(moves.last())
        }
    }

    /// Without a frame nothing has happened; with one, the expansion is in
    /// step.
    pub open spec fn in_step(self, ramp: usize) -> bool {
        if self.ic3.num_solvers == 0 {
            &&& self.run.stage == BlockStage::Done(BlockResult::Success)
            &&& self.ic3.cfg.multi_fixed is None
            &&& self.ic3.timeframe_expansion == 1
            &&& self.ic3.mt_escalations == 0
            &&& !self.ic3.mt_restart_pending
        } else {
            self.ic3.expansion_in_step(self.run, ramp)
        }
    }
}

/// What the time ramp grants, where a move says so.
pub open spec fn granted_in(step: Move) -> Option<usize> {
    match step {
        Move::Answer(event) => ramp_in(event),
        _ => None,
    }
}

/// What the time ramp granted last.
pub open spec fn last_granted(moves: Seq<Move>) -> usize
    decreases moves.len(),
{
    if moves.len() == 0 {
        0
    } else {
        match granted_in(moves.last()) {
            Some(granted) => granted,
            None => last_granted(moves.drop_last()),
        }
    }
}

/// The time ramp never grants less than before.
pub open spec fn clock_runs_on(moves: Seq<Move>) -> bool
    decreases moves.len(),
{
    moves.len() > 0 ==> {
        &&& clock_runs_on(moves.drop_last())
        &&& granted_in(moves.last()) matches Some(granted) ==> last_granted(moves.drop_last())
            <= granted
    }
}

proof fn lemma_move_keeps_in_step(moment: Moment, step: Move, ramp: usize)
    requires
        moment.in_step(ramp),
        moment.allows(step),
        granted_in(step) matches Some(granted) ==> ramp <= granted,
    ensures
        moment.after(step).in_step(
            match granted_in(step) {
                Some(granted) => granted,
                None => ramp,
            },
        ),
{
    let ic3 = moment.ic3;
    let after = moment.after(step);
    crate::multitf::law_ceiling_is_bounded(
        after.ic3.spec_level(),
        after.ic3.params.exp_cap,
        ramp as nat,
        after.ic3.mt_overshoot_used as nat,
    );
    if ic3.num_solvers > 0 {
        crate::block::law_expansion_stays_under_ceiling(ic3, ramp, BlockEvent::Predecessor, ramp);
        if let Move::Answer(event) = step {
            crate::block::law_answers_keep_the_expansion_in_step(ic3, moment.run, ramp, event);
        }
    }
}

/// Whatever a checker without a fixed expansion goes through, frame by frame
/// and phase by phase, its expansion lies between one and the ceiling, a
/// pending restart has looked over at least two timeframes, and a phase that
/// ended in success without one has left single steps and an unscaled
/// threshold behind.
pub proof fn law_expansion_is_always_in_step(
    ic3: IC3,
    cfg: Config,
    params: MtParams,
    moves: Seq<Move>,
)
    requires
        ic3.is_fresh(cfg, params),
        cfg.multi_fixed is None,
        Moment::dawn(ic3).allows_all(moves),
        clock_runs_on(moves),
    ensures
        Moment::dawn(ic3).after_all(moves).in_step(last_granted(moves)),
    decreases moves.len(),
{
    if moves.len() > 0 {
        let front = moves.drop_last();
        law_expansion_is_always_in_step(ic3, cfg, params, front);
        lemma_move_keeps_in_step(
            Moment::dawn(ic3).after_all(front),
            moves.last(),
            last_granted(front),
        );
    }
}

/// Every restart of a checker strictly deepens, whatever the configuration and
/// whatever came before: the expansion is the double, within the ceiling, and
/// so it is larger than before and at least two, and the threshold is scaled
/// once more.
pub proof fn law_every_restart_strictly_deepens(
    ic3: IC3,
    cfg: Config,
    params: MtParams,
    moves: Seq<Move>,
    ramp: usize,
)
    requires
        ic3.is_fresh(cfg, params),
        Moment::dawn(ic3).allows_all(moves.push(Move::Answer(BlockEvent::Ramp(ramp)))),
        clock_runs_on(moves.push(Move::Answer(BlockEvent::Ramp(ramp)))),
    ensures
        ({
            let before = Moment::dawn(ic3).after_all(moves).ic3;
            let after = Moment::dawn(ic3).after_all(
                moves.push(Move::Answer(BlockEvent::Ramp(ramp))),
            ).ic3;
            &&& after.timeframe_expansion > before.timeframe_expansion
            &&& after.timeframe_expansion >= 2
            &&& after.timeframe_expansion == smaller(
                2 * before.timeframe_expansion as nat,
                before.spec_ceiling(ramp),
            )
            &&& after.mt_escalations == bumped(before.mt_escalations)
            &&& after.mt_restart_pending
        }),
{
    let step = Move::Answer(BlockEvent::Ramp(ramp));
    let all = moves.push(step);
    assert(all.drop_last() =~= moves);
    let before = Moment::dawn(ic3).after_all(moves);
    assert(before.allows(step));
    if cfg.multi_fixed is Some {
        lemma_fixed_never_restarts(ic3, cfg, params, moves);
    } else {
        law_expansion_is_always_in_step(ic3, cfg, params, moves);
        crate::multitf::law_ceiling_is_monotone(
            before.ic3.spec_level(),
            before.ic3.params.exp_cap,
            last_granted(moves) as nat,
            before.ic3.mt_overshoot_used as nat,
            before.ic3.spec_level(),
            ramp as nat,
            before.ic3.mt_overshoot_used as nat,
        );
        crate::multitf::law_ceiling_is_bounded(
            before.ic3.spec_level(),
            before.ic3.params.exp_cap,
            ramp as nat,
            before.ic3.mt_overshoot_used as nat,
        );
    }
}

proof fn lemma_fixed_never_restarts(ic3: IC3, cfg: Config, params: MtParams, moves: Seq<Move>)
    requires
        ic3.is_fresh(cfg, params),
        cfg.multi_fixed is Some,
        Moment::dawn(ic3).allows_all(moves),
    ensures
        Moment::dawn(ic3).after_all(moves).ic3.cfg == cfg,
        Moment::dawn(ic3).after_all(moves).run.stage != BlockStage::Ramp,
    decreases moves.len(),
{
    if moves.len() > 0 {
        lemma_fixed_never_restarts(ic3, cfg, params, moves.drop_last());
    }
}

} // verus!
