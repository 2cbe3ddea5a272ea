//! The unrolled system, predecessors over several timeframes, the main loop
//! and the counterexample.

use ric3::block::BlockResult;
use ric3::check::{CheckEvent, CheckStage, RestartRun};
use ric3::ic3::{Config, IC3};
use ric3::lemma::Link;
use ric3::lit::{order_cube, Lit};
use ric3::params::{mt_params, MtEnv};
use ric3::pred::{PredEvent, PredRun, PredStage, Signals};
use ric3::unroll::mt_get_lemma_at_frame;
use ric3::witness::{drop_var, witness};

fn lit(var: u32, polarity: bool) -> Lit {
    Lit::new(var, polarity)
}

fn cube(vars: &[u32]) -> Vec<Lit> {
    vars.iter().map(|v| lit(*v, true)).collect()
}

fn fresh() -> IC3 {
    let params = mt_params(&MtEnv {
        min_level: None,
        abs_threshold_ms: None,
        median_factor: None,
        abs_expand_factor: None,
        exp_ratio: None,
        ratio_max: None,
        ratio_ramp_sec: None,
        exp_overshoot: None,
        exp_cap: None,
        log: None,
    });
    let cfg = Config {
        multi_fixed: None,
        multi_timeframe: true,
        multi_enabled: true,
        abs_cst: false,
        abs_trans: false,
        drop_po: false,
        dynamic: false,
        rseed: 7,
    };
    IC3::new(cfg, params)
}

fn at_level(level: usize) -> IC3 {
    let mut ic3 = fresh();
    for _ in 0..level + 1 {
        ic3.extend();
    }
    ic3
}

/// Copies of three variables: variable `v` at timeframe `k` is `10 * k + v`.
fn copies(timeframes: u32) -> Vec<Vec<Lit>> {
    (0..timeframes).map(|k| (0..3).map(|v| lit(10 * k + v, true)).collect()).collect()
}

#[test]
fn a_cube_is_copied_to_its_timeframe() {
    let c = vec![lit(1, true), lit(2, false)];
    assert_eq!(mt_get_lemma_at_frame(&c, &copies(3), 0), c);
    assert_eq!(mt_get_lemma_at_frame(&c, &copies(3), 2), vec![lit(21, true), lit(22, false)]);
}

#[test]
fn timeframes_get_the_lemmas_of_their_frame_and_above() {
    let mut ic3 = at_level(4);
    // One lemma in frame 1, one in frame 2, one in frame 4.
    let frames = vec![
        vec![],
        vec![vec![lit(1, true)]],
        vec![vec![lit(2, true)]],
        vec![],
        vec![vec![lit(1, true), lit(2, false)]],
    ];
    let init = vec![vec![lit(0, true)]];
    // Timeframes 0 and 1 stand for frames 2 and 3.
    let clauses = ic3.mt_init_solver(4, 2, &frames, &copies(2), &init);
    assert_eq!(ic3.timeframe_expansion, 2);
    assert_eq!(
        clauses,
        vec![
            vec![lit(2, false)],
            vec![lit(1, false), lit(2, true)],
            vec![lit(11, false), lit(12, true)],
        ]
    );
}

#[test]
fn the_first_frame_brings_the_initial_states() {
    let mut ic3 = at_level(2);
    let frames = vec![vec![vec![lit(1, true)]], vec![vec![lit(2, true)]], vec![]];
    let init = vec![vec![lit(1, false)], vec![lit(2, false), lit(1, true)]];
    let clauses = ic3.mt_init_solver(2, 2, &frames, &copies(2), &init);
    assert_eq!(
        clauses,
        vec![
            vec![lit(1, false)],
            vec![lit(2, false)],
            vec![lit(12, false)],
            vec![lit(1, false)],
            vec![lit(2, false), lit(1, true)],
        ]
    );
}

#[test]
fn states_in_between_are_in_the_variables_of_the_system() {
    let values = vec![vec![Some(true), Some(false)], vec![None, Some(true)]];
    assert_eq!(
        IC3::mid_states(&vec![4, 5], &values),
        vec![vec![lit(4, true), lit(5, false)], vec![lit(5, true)]]
    );
}

#[test]
fn inputs_are_split_by_timeframe() {
    let values = vec![Some(true), Some(false), None, Some(true), Some(false), Some(true), Some(true)];
    assert_eq!(
        IC3::timeframe_inputs(&vec![7, 8], &values, 3),
        vec![vec![lit(7, true), lit(8, false)], vec![lit(8, true)], vec![lit(7, false), lit(8, true)]]
    );
    // Too few values leave the last timeframes short.
    assert_eq!(
        IC3::timeframe_inputs(&vec![7, 8], &values[..3].to_vec(), 3),
        vec![vec![lit(7, true), lit(8, false)], vec![], vec![]]
    );
    assert_eq!(IC3::timeframe_inputs(&vec![], &vec![], 2), vec![vec![], vec![]]);
}

/// A system without latches and inputs of its own, unrolled to one timeframe
/// with the given latches.
fn signals(unrolled_latches: &[u32]) -> Signals {
    Signals {
        latches: vec![],
        inputs: vec![],
        unrolled_latches: unrolled_latches.to_vec(),
        unrolled_inputs: vec![],
        timeframes: 1,
    }
}

fn no_model() -> PredEvent {
    PredEvent::Model { latches: vec![], inputs: vec![] }
}

#[test]
fn an_empty_target_has_the_empty_predecessor() {
    let run = PredRun::mt_get_pred(&vec![], &vec![], signals(&[1, 2]), true);
    assert_eq!(run.stage, PredStage::Done);
    assert!(run.cube.is_empty());
    assert!(run.inputs.is_empty());
    assert!(run.mid_states.is_empty());
}

#[test]
fn the_model_is_read_first() {
    let mut ic3 = at_level(3);
    let signals = Signals {
        latches: vec![1, 2],
        inputs: vec![5],
        unrolled_latches: vec![1, 2],
        unrolled_inputs: vec![5, 15],
        timeframes: 2,
    };
    let mut run = PredRun::mt_get_pred(&cube(&[1]), &vec![], signals, true);
    assert!(!run.accepts(&PredEvent::Domain(true)));
    assert!(!run.accepts(&PredEvent::Model { latches: vec![], inputs: vec![None, None] }));
    assert!(!run.accepts(&PredEvent::Model { latches: vec![vec![None]], inputs: vec![None, None] }));
    assert!(!run.accepts(&PredEvent::Model {
        latches: vec![vec![None, None]],
        inputs: vec![None],
    }));
    let model = PredEvent::Model {
        latches: vec![vec![Some(false), None]],
        inputs: vec![Some(true), Some(false)],
    };
    assert!(run.accepts(&model));
    run.step(&mut ic3, model);
    assert_eq!(run.stage, PredStage::Domain);
    assert_eq!(run.mid_states, vec![vec![lit(1, false)]]);
    assert_eq!(run.inputs, vec![vec![lit(5, true)], vec![lit(5, false)]]);
    assert_eq!(run.all_inputs, vec![lit(5, true), lit(15, false)]);
}

#[test]
fn values_without_inputs_are_refused() {
    let signals = Signals { unrolled_inputs: vec![7], ..signals(&[1]) };
    let run = PredRun::mt_get_pred(&cube(&[1]), &vec![], signals, true);
    assert!(run.accepts(&PredEvent::Model { latches: vec![], inputs: vec![None] }));
    assert!(!run.accepts(&PredEvent::Model { latches: vec![], inputs: vec![Some(true)] }));
}

#[test]
fn only_latches_that_matter_are_chosen() {
    let mut ic3 = at_level(3);
    let mut run = PredRun::mt_get_pred(
        &vec![lit(2, true)],
        &vec![lit(9, false)],
        signals(&[1, 2, 3, 4, 5]),
        false,
    );
    assert_eq!(run.target, vec![lit(2, false), lit(9, true)]);
    run.step(&mut ic3, no_model());
    // 1: outside the domain.
    assert_eq!(run.latch(), 1);
    run.step(&mut ic3, PredEvent::Domain(false));
    // 2: in the target, so it is never taken back.
    assert_eq!(run.latch(), 2);
    run.step(&mut ic3, PredEvent::Domain(true));
    run.step(&mut ic3, PredEvent::Value(Some(false)));
    // 3: no value.
    assert_eq!(run.latch(), 3);
    run.step(&mut ic3, PredEvent::Domain(true));
    run.step(&mut ic3, PredEvent::Value(None));
    // 4: can be taken back.
    run.step(&mut ic3, PredEvent::Domain(true));
    run.step(&mut ic3, PredEvent::Value(Some(true)));
    assert!(run.accepts(&PredEvent::Flip(true)));
    run.step(&mut ic3, PredEvent::Flip(true));
    // 5: cannot.
    run.step(&mut ic3, PredEvent::Domain(true));
    run.step(&mut ic3, PredEvent::Value(Some(true)));
    run.step(&mut ic3, PredEvent::Flip(false));
    assert_eq!(run.stage, PredStage::Premise);
    assert_eq!(order_cube(run.cube.clone()), vec![lit(2, false), lit(5, true)]);
    // Without strengthening one premise is enough.
    run.step(&mut ic3, PredEvent::Premise(vec![lit(5, true)]));
    assert_eq!(run.stage, PredStage::Done);
    assert_eq!(run.cube, vec![lit(5, true)]);
}

#[test]
fn strengthening_goes_on_while_it_gains() {
    let mut ic3 = at_level(3);
    let chosen = |ic3: &mut IC3| {
        let mut run = PredRun::mt_get_pred(&cube(&[1, 2, 3]), &vec![], signals(&[1, 2, 3]), true);
        run.step(ic3, no_model());
        for _ in 0..3 {
            run.step(ic3, PredEvent::Domain(true));
            run.step(ic3, PredEvent::Value(Some(true)));
        }
        assert_eq!(run.stage, PredStage::Premise);
        run
    };
    let mut run = chosen(&mut ic3);
    run.step(&mut ic3, PredEvent::Premise(cube(&[1, 2])));
    assert_eq!(run.stage, PredStage::Premise);
    assert_eq!(order_cube(run.cube.clone()), cube(&[1, 2]));
    run.step(&mut ic3, PredEvent::Premise(cube(&[2, 1])));
    assert_eq!(run.stage, PredStage::Done);
    assert_eq!(run.cube, cube(&[2, 1]));
    let mut emptied = chosen(&mut ic3);
    emptied.step(&mut ic3, PredEvent::Premise(vec![]));
    assert_eq!(emptied.stage, PredStage::Done);
    assert!(emptied.cube.is_empty());
}

#[test]
fn the_literals_to_minimise_come_in_the_drawn_order() {
    let latches: Vec<u32> = (1..60).collect();
    let choose_all = |ic3: &mut IC3| {
        let mut run = PredRun::mt_get_pred(&cube(&latches), &vec![], signals(&latches), true);
        run.step(ic3, no_model());
        for _ in &latches {
            run.step(ic3, PredEvent::Domain(true));
            run.step(ic3, PredEvent::Value(Some(true)));
        }
        run.cube
    };
    let mut drawn = cube(&latches);
    at_level(3).shuffle(&mut drawn);
    assert_ne!(drawn, cube(&latches));
    assert_eq!(choose_all(&mut at_level(3)), drawn);
}

#[test]
fn no_chosen_latch_means_nothing_to_minimise() {
    let mut ic3 = at_level(3);
    let mut run = PredRun::mt_get_pred(&cube(&[1]), &vec![], signals(&[4]), true);
    run.step(&mut ic3, no_model());
    run.step(&mut ic3, PredEvent::Domain(false));
    assert_eq!(run.stage, PredStage::Done);
}

#[test]
fn the_main_loop_refutes() {
    let mut ic3 = fresh();
    let mut run = ic3.check();
    assert_eq!(ic3.level(), 0);
    assert_eq!(run.stage, CheckStage::Block);
    ic3.check_step(&mut run, CheckEvent::Blocked(BlockResult::Success));
    assert_eq!(run.stage, CheckStage::Bad);
    ic3.check_step(&mut run, CheckEvent::Bad(Some((cube(&[3, 1]), cube(&[5])))));
    let obligation = run.obligation.as_ref().unwrap();
    assert_eq!((obligation.frame, obligation.depth), (0, 0));
    assert_eq!(obligation.lemma, cube(&[1, 3]));
    assert_eq!(obligation.input, cube(&[5]));
    ic3.check_step(&mut run, CheckEvent::Blocked(BlockResult::Failure));
    assert_eq!(run.stage, CheckStage::Done(false));
    assert!(run.obligation.is_none());
}

#[test]
fn the_main_loop_proves_by_propagation() {
    let mut ic3 = fresh();
    let mut run = ic3.check();
    for level in 1..4 {
        ic3.check_step(&mut run, CheckEvent::Blocked(BlockResult::Success));
        ic3.check_step(&mut run, CheckEvent::Bad(None));
        assert_eq!(ic3.level(), level);
        assert_eq!(run.stage, CheckStage::Propagate);
        if level < 3 {
            ic3.check_step(&mut run, CheckEvent::Propagated(false));
            assert!(run.accepts(&CheckEvent::PropagatedToInf));
            ic3.check_step(&mut run, CheckEvent::PropagatedToInf);
        }
    }
    ic3.check_step(&mut run, CheckEvent::Propagated(true));
    assert_eq!(run.stage, CheckStage::Verify);
    ic3.check_step(&mut run, CheckEvent::Verified);
    assert_eq!(run.stage, CheckStage::Done(true));
}

#[test]
fn the_main_loop_proves_while_blocking() {
    let mut ic3 = fresh();
    let mut run = ic3.check();
    ic3.check_step(&mut run, CheckEvent::Blocked(BlockResult::Proved));
    assert_eq!(run.stage, CheckStage::Verify);
    assert!(!run.accepts(&CheckEvent::Bad(None)));
    ic3.check_step(&mut run, CheckEvent::Verified);
    assert_eq!(run.stage, CheckStage::Done(true));
}

#[test]
fn an_exceeded_limit_does_not_end_the_main_loop() {
    let mut ic3 = fresh();
    let mut run = ic3.check();
    ic3.check_step(&mut run, CheckEvent::Blocked(BlockResult::LimitExceeded));
    assert_eq!(run.stage, CheckStage::Bad);
}

#[test]
fn restarts_follow_the_luby_limits() {
    let ic3 = at_level(8);
    let mut run = RestartRun::block_with_restart();
    let mut limits = vec![];
    for _ in 0..6 {
        limits.push(run.limit());
        assert!(run.step(&ic3, BlockResult::LimitExceeded, None).is_some());
    }
    assert_eq!(limits, vec![100, 100, 200, 100, 100, 200]);
    assert_eq!(run.restart, 6);
    assert_eq!(run.result, None);
    assert_eq!(run.step(&ic3, BlockResult::Proved, Some(1)), None);
    assert_eq!(run.result, Some(BlockResult::Proved));
}

#[test]
fn restarts_clear_the_queue_below_the_last_frame() {
    let ic3 = at_level(8);
    let bound = |peak| RestartRun::block_with_restart().step(&ic3, BlockResult::LimitExceeded, peak);
    assert_eq!(bound(None), Some(7));
    assert_eq!(bound(Some(0)), Some(2));
    assert_eq!(bound(Some(4)), Some(6));
    assert_eq!(bound(Some(5)), Some(7));
    assert_eq!(bound(Some(9)), Some(7));
    let shallow = at_level(1);
    assert_eq!(
        RestartRun::block_with_restart().step(&shallow, BlockResult::LimitExceeded, Some(0)),
        Some(0)
    );
}

#[test]
fn the_marker_of_the_initial_state_is_left_out() {
    let c = vec![lit(4, true), lit(9, false), lit(9, true), lit(5, false)];
    assert_eq!(drop_var(&c, Some(9)), vec![lit(4, true), lit(5, false)]);
    assert_eq!(drop_var(&c, None), c);
}

#[test]
fn a_counterexample_has_a_state_and_inputs_per_obligation() {
    // Variable 2 marks the initial state, variable 1 maps to the negation of
    // variable 6.
    let images = vec![lit(0, true), lit(6, false)];
    let links = vec![
        Link::new(0, vec![lit(2, true), lit(1, true)], vec![lit(1, false)], 1),
        Link::new(1, vec![lit(1, false)], vec![lit(2, false)], 0),
    ];
    let w = witness(&links, Some(2), &images);
    assert_eq!(w.state, vec![vec![lit(6, false)], vec![lit(6, true)]]);
    assert_eq!(w.input, vec![vec![lit(6, true)], vec![]]);
}
