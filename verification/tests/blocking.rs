//! The blocking phase.

use ric3::block::{BlockAction, BlockEvent, BlockResult, BlockRun, BlockStage, MtBlockResult, Popped};
use ric3::double::Double;
use ric3::duration::Duration;
use ric3::ic3::{Config, IC3};
use ric3::params::{mt_params, MtEnv, MtParams};

fn params() -> MtParams {
    mt_params(&MtEnv {
        min_level: None,
        abs_threshold_ms: None,
        median_factor: None,
        abs_expand_factor: None,
        exp_ratio: None,
        ratio_max: None,
        ratio_ramp_sec: None,
        exp_overshoot: None,
        exp_cap: None,
        log: None,
    })
}

fn config() -> Config {
    Config {
        multi_fixed: None,
        multi_timeframe: true,
        multi_enabled: true,
        abs_cst: false,
        abs_trans: false,
        drop_po: false,
        dynamic: false,
        rseed: 0,
    }
}

fn at_level(cfg: Config, level: usize) -> IC3 {
    let mut ic3 = IC3::new(cfg, params());
    for _ in 0..level + 1 {
        ic3.extend();
    }
    ic3
}

fn popped(frame: usize) -> BlockEvent {
    BlockEvent::Popped(Some(Popped { removed: false, frame, depth: 3 }))
}

fn clock(elapsed: u64) -> BlockEvent {
    BlockEvent::Clock { elapsed: Duration::new(elapsed, 0), threshold: Duration::new(10, 0), ramp: 5 }
}

/// Hands in one answer after the other; the action after the last is given
/// back.
fn answer(ic3: &mut IC3, run: &mut BlockRun, events: &[BlockEvent]) -> BlockAction {
    let mut action = BlockAction::Pop;
    for event in events {
        assert!(run.accepts(event), "{:?} in {:?}", event, run.stage);
        action = ic3.block_step(run, *event);
    }
    action
}

fn activity(act: f64) -> BlockEvent {
    BlockEvent::Activity(Double::new(act.to_bits()))
}

#[test]
fn an_empty_queue_ends_the_phase_without_a_sample() {
    let mut ic3 = at_level(config(), 5);
    let mut run = ic3.block(None);
    assert_eq!(run.stage, BlockStage::Pop);
    let action = answer(&mut ic3, &mut run, &[BlockEvent::Popped(None)]);
    assert_eq!(action, BlockAction::Finish(BlockResult::Success));
    assert_eq!(run.stage, BlockStage::Done(BlockResult::Success));
    assert_eq!(ic3.blocking_time_median.count(), 0);
}

#[test]
fn a_finished_phase_enters_the_median() {
    let mut ic3 = at_level(config(), 5);
    let mut run = ic3.block(None);
    let removed = BlockEvent::Popped(Some(Popped { removed: true, frame: 2, depth: 0 }));
    let action = answer(&mut ic3, &mut run, &[removed]);
    assert_eq!(action, BlockAction::Pop);
    let action = answer(&mut ic3, &mut run, &[BlockEvent::Popped(None)]);
    assert_eq!(action, BlockAction::MeasureEpisode);
    ic3.record_episode(&mut run, Duration::from_millis(1500));
    assert_eq!(run.stage, BlockStage::Done(BlockResult::Success));
    assert_eq!(ic3.blocking_time_median.median(), Some(Duration::from_millis(1500)));
    assert_eq!(ic3.statistic.mt.final_median, Some(Duration::from_millis(1500)));
    assert_eq!(ic3.statistic.mt.median_samples, 1);
}

#[test]
fn a_lemma_is_blocked_with_single_steps() {
    let mut ic3 = at_level(config(), 5);
    let mut run = ic3.block(None);
    let to_clock = answer(&mut ic3, &mut run, &[popped(3), BlockEvent::Init(false)]);
    assert_eq!(to_clock, BlockAction::ReadClock);
    let to_contained = answer(&mut ic3, &mut run, &[clock(0)]);
    assert_eq!(to_contained, BlockAction::QueryContained);
    let to_activity = answer(&mut ic3, &mut run, &[BlockEvent::Contained(None)]);
    assert_eq!(to_activity, BlockAction::BumpActivity);
    let to_blocked = answer(&mut ic3, &mut run, &[activity(1.0)]);
    assert_eq!(to_blocked, BlockAction::QueryBlocked);
    let to_generalize = answer(&mut ic3, &mut run, &[BlockEvent::Blocked(true)]);
    assert_eq!(to_generalize, BlockAction::Generalize);
    assert_eq!(run.noc, 1);
    let to_pop = answer(&mut ic3, &mut run, &[BlockEvent::Generalized(false)]);
    assert_eq!(to_pop, BlockAction::Pop);
    assert_eq!(run.stage, BlockStage::Pop);
}

#[test]
fn a_lemma_that_closes_a_fixpoint_proves_the_property() {
    let mut ic3 = at_level(config(), 5);
    let mut run = ic3.block(None);
    let action = answer(
        &mut ic3,
        &mut run,
        &[
            popped(3),
            BlockEvent::Init(false),
            clock(0),
            BlockEvent::Contained(None),
            activity(1.0),
            BlockEvent::Blocked(true),
            BlockEvent::Generalized(true),
        ],
    );
    assert_eq!(action, BlockAction::Finish(BlockResult::Proved));
    assert_eq!(run.stage, BlockStage::Done(BlockResult::Proved));
}

#[test]
fn a_lemma_that_is_not_blocked_gets_a_predecessor() {
    let mut ic3 = at_level(config(), 5);
    let mut run = ic3.block(None);
    let action = answer(
        &mut ic3,
        &mut run,
        &[
            popped(3),
            BlockEvent::Init(false),
            clock(0),
            BlockEvent::Contained(None),
            activity(1.0),
            BlockEvent::Blocked(false),
        ],
    );
    assert_eq!(action, BlockAction::FindPredecessor);
    let action = answer(&mut ic3, &mut run, &[BlockEvent::Predecessor]);
    assert_eq!(action, BlockAction::QueuePredecessorThenPop);
    assert_eq!(run.noc, 0);
}

#[test]
fn an_initial_state_in_frame_zero_is_a_failure() {
    let mut ic3 = at_level(config(), 5);
    let mut run = ic3.block(None);
    let action = answer(&mut ic3, &mut run, &[popped(0), BlockEvent::Init(true)]);
    assert_eq!(action, BlockAction::RequeueThenFinish(BlockResult::Failure));
    assert_eq!(run.stage, BlockStage::Done(BlockResult::Failure));
}

#[test]
fn above_frame_zero_the_initial_states_are_asked_again() {
    let mut ic3 = at_level(config(), 5);
    let mut run = ic3.block(None);
    let action = answer(&mut ic3, &mut run, &[popped(2), BlockEvent::Init(true)]);
    assert_eq!(action, BlockAction::SolveInit);
    let action = answer(&mut ic3, &mut run, &[BlockEvent::NoInitialState]);
    assert_eq!(action, BlockAction::ReadClock);
}

#[test]
fn abstractions_are_confirmed_by_bounded_model_checking() {
    for cfg in [Config { abs_cst: true, ..config() }, Config { abs_trans: true, ..config() }] {
        let mut ic3 = at_level(cfg, 5);
        let mut run = ic3.block(None);
        let action = answer(&mut ic3, &mut run, &[popped(2), BlockEvent::Init(true)]);
        assert_eq!(action, BlockAction::RequeueThenBmc(3));
        let mut refuted = run;
        let action = answer(&mut ic3, &mut refuted, &[BlockEvent::Bmc(true)]);
        assert_eq!(action, BlockAction::Finish(BlockResult::Failure));
        let action = answer(&mut ic3, &mut run, &[BlockEvent::Bmc(false)]);
        assert_eq!(action, BlockAction::ForgetThenPop);
        assert_eq!(run.stage, BlockStage::Pop);
    }
}

#[test]
fn contained_lemmas_are_pushed_or_dropped() {
    let mut ic3 = at_level(config(), 5);
    let mut run = ic3.block(None);
    let until = [popped(2), BlockEvent::Init(false), clock(0)];
    answer(&mut ic3, &mut run, &until);
    let action = answer(&mut ic3, &mut run, &[BlockEvent::Contained(Some(Some(4)))]);
    assert_eq!(action, BlockAction::RaiseThenPop(5));
    answer(&mut ic3, &mut run, &until);
    let action = answer(&mut ic3, &mut run, &[BlockEvent::Contained(Some(None))]);
    assert_eq!(action, BlockAction::Pop);
    answer(&mut ic3, &mut run, &until);
    assert!(!run.accepts(&BlockEvent::Contained(Some(Some(usize::MAX)))));
}

#[test]
fn overly_active_obligations_are_dropped_on_request() {
    let until = [popped(2), BlockEvent::Init(false), clock(0), BlockEvent::Contained(None)];
    let mut dropping = at_level(Config { drop_po: true, ..config() }, 5);
    let mut run = dropping.block(None);
    answer(&mut dropping, &mut run, &until);
    let action = answer(&mut dropping, &mut run, &[activity(20.0)]);
    assert_eq!(action, BlockAction::QueryBlocked);
    let mut run = dropping.block(None);
    answer(&mut dropping, &mut run, &until);
    let action = answer(&mut dropping, &mut run, &[activity(20.5)]);
    assert_eq!(action, BlockAction::Pop);
    let mut keeping = at_level(config(), 5);
    let mut run = keeping.block(None);
    answer(&mut keeping, &mut run, &until);
    let action = answer(&mut keeping, &mut run, &[activity(1e9)]);
    assert_eq!(action, BlockAction::QueryBlocked);
}

#[test]
fn the_limit_counts_blocked_lemmas() {
    let mut ic3 = at_level(config(), 5);
    let mut run = ic3.block(Some(1));
    let round = [
        popped(3),
        BlockEvent::Init(false),
        clock(0),
        BlockEvent::Contained(None),
        activity(1.0),
        BlockEvent::Blocked(true),
        BlockEvent::Generalized(false),
    ];
    answer(&mut ic3, &mut run, &round);
    answer(&mut ic3, &mut run, &round);
    assert_eq!(run.noc, 2);
    let action = answer(&mut ic3, &mut run, &[popped(3)]);
    assert_eq!(action, BlockAction::Finish(BlockResult::LimitExceeded));
    assert_eq!(run.stage, BlockStage::Done(BlockResult::LimitExceeded));
}

#[test]
fn a_fixed_expansion_is_limited_by_the_level() {
    let mut deep = at_level(Config { multi_fixed: Some(4), ..config() }, 9);
    deep.block(None);
    assert_eq!(deep.timeframe_expansion, 4);
    let mut shallow = at_level(Config { multi_fixed: Some(4), ..config() }, 2);
    shallow.block(None);
    assert_eq!(shallow.timeframe_expansion, 2);
    let mut bottom = at_level(Config { multi_fixed: Some(4), ..config() }, 0);
    bottom.block(None);
    assert_eq!(bottom.timeframe_expansion, 1);
}

#[test]
fn several_timeframes_are_tried_at_the_last_frame_only() {
    let until = |frame| {
        [popped(frame), BlockEvent::Init(false), clock(0), BlockEvent::Contained(None), activity(1.0)]
    };
    let mut ic3 = at_level(Config { multi_fixed: Some(4), ..config() }, 9);
    let mut run = ic3.block(None);
    assert_eq!(answer(&mut ic3, &mut run, &until(8)), BlockAction::QueryBlocked);
    let mut run = ic3.block(None);
    assert_eq!(answer(&mut ic3, &mut run, &until(9)), BlockAction::MtBlock(4));
    let mut proved = run;
    assert_eq!(
        answer(&mut ic3, &mut proved, &[BlockEvent::Mt(MtBlockResult::Proved)]),
        BlockAction::Finish(BlockResult::Proved)
    );
    let mut handled = run;
    assert_eq!(
        answer(&mut ic3, &mut handled, &[BlockEvent::Mt(MtBlockResult::Handled)]),
        BlockAction::Pop
    );
    assert_eq!(
        answer(&mut ic3, &mut run, &[BlockEvent::Mt(MtBlockResult::Fallback)]),
        BlockAction::QueryBlocked
    );
    let mut off = at_level(Config { multi_fixed: Some(4), multi_enabled: false, ..config() }, 9);
    let mut run = off.block(None);
    assert_eq!(answer(&mut off, &mut run, &until(9)), BlockAction::QueryBlocked);
}

#[test]
fn a_restart_carries_the_expansion_into_the_next_phase() {
    let mut ic3 = at_level(config(), 20);
    let mut run = ic3.block(None);
    let action = answer(&mut ic3, &mut run, &[popped(20), BlockEvent::Init(false), clock(11)]);
    assert_eq!(action, BlockAction::ReadRamp);
    let action = answer(&mut ic3, &mut run, &[BlockEvent::Ramp(5)]);
    assert_eq!(action, BlockAction::ClearThenPop);
    assert!(ic3.mt_restart_pending);
    assert_eq!(ic3.timeframe_expansion, 2);
    let action = answer(&mut ic3, &mut run, &[BlockEvent::Popped(None)]);
    assert_eq!(action, BlockAction::Finish(BlockResult::Success));
    assert_eq!(ic3.timeframe_expansion, 2);
    assert_eq!(ic3.blocking_time_median.count(), 0);

    let mut next = ic3.block(None);
    assert!(!ic3.mt_restart_pending);
    assert_eq!(ic3.timeframe_expansion, 2);
    assert_eq!(ic3.mt_escalations, 1);
    let action = answer(
        &mut ic3,
        &mut next,
        &[popped(20), BlockEvent::Init(false), clock(0), BlockEvent::Contained(None), activity(1.0)],
    );
    assert_eq!(action, BlockAction::MtBlock(2));
    let action = answer(
        &mut ic3,
        &mut next,
        &[BlockEvent::Mt(MtBlockResult::Handled), BlockEvent::Popped(None)],
    );
    assert_eq!(action, BlockAction::MeasureEpisode);
    assert_eq!(ic3.timeframe_expansion, 1);
    assert_eq!(ic3.mt_escalations, 0);
    ic3.record_episode(&mut next, Duration::new(12, 0));

    ic3.block(None);
    assert_eq!(ic3.timeframe_expansion, 1);
    assert_eq!(ic3.mt_escalations, 0);
}

#[test]
fn a_resumed_phase_that_ends_brings_back_the_unscaled_threshold() {
    let mut ic3 = at_level(config(), 20);
    let mut run = ic3.block(None);
    answer(
        &mut ic3,
        &mut run,
        &[
            popped(20),
            BlockEvent::Init(false),
            clock(11),
            BlockEvent::Ramp(5),
            BlockEvent::Popped(None),
        ],
    );
    let mut resumed = ic3.block(None);
    assert_eq!((ic3.timeframe_expansion, ic3.mt_escalations), (2, 1));
    let removed = BlockEvent::Popped(Some(Popped { removed: true, frame: 20, depth: 0 }));
    answer(&mut ic3, &mut resumed, &[removed, BlockEvent::Popped(None)]);
    assert_eq!((ic3.timeframe_expansion, ic3.mt_escalations), (1, 0));
    assert!(!ic3.mt_restart_pending);
}

#[test]
fn every_restart_deepens_until_the_checker_commits() {
    let mut ic3 = at_level(config(), 20);
    let mut expansions = vec![];
    for _ in 0..5 {
        let before = ic3.timeframe_expansion;
        let mut run = ic3.block(None);
        answer(
            &mut ic3,
            &mut run,
            &[
                popped(20),
                BlockEvent::Init(false),
                clock(1000),
                BlockEvent::Ramp(5),
                BlockEvent::Popped(None),
            ],
        );
        assert_eq!(run.stage, BlockStage::Done(BlockResult::Success));
        assert!(ic3.mt_restart_pending);
        assert!(ic3.timeframe_expansion > before && ic3.timeframe_expansion >= 2);
        expansions.push(ic3.timeframe_expansion);
    }
    assert_eq!(expansions, vec![2, 4, 5, 10, 20]);
    assert_eq!(ic3.mt_escalations, 5);
    let mut run = ic3.block(None);
    let action = answer(&mut ic3, &mut run, &[popped(20), BlockEvent::Init(false), clock(1000)]);
    assert_eq!(action, BlockAction::QueryContained);
}

#[test]
fn answers_that_were_not_asked_for_are_told_apart() {
    let mut ic3 = at_level(config(), 5);
    let run = ic3.block(None);
    assert!(run.accepts(&popped(1)));
    assert!(!run.accepts(&BlockEvent::Init(true)));
    assert!(!run.accepts(&clock(1)));
    assert!(!run.accepts(&BlockEvent::Generalized(true)));
}
