//! Generalising, pushing and minimising lemmas.

use ric3::block::MtBlockResult;
use ric3::double::Double;
use ric3::ic3::{Config, IC3};
use ric3::lemma::{
    GeneralizeEvent, GeneralizeRun, GeneralizeStage, Link, PushEvent, PushRun, PushStage,
};
use ric3::lit::Lit;
use ric3::mic::{
    DownEvent, DownRun, DownStage, DropVarEvent, DropVarParameter, DropVarRun, DropVarStage,
    MicChoice,
};
use ric3::mtblock::{mt_get_blocking_cube, MtBlockRun, MtEvent, MtStage};
use ric3::params::{mt_params, MtEnv};
use ric3::refine::{RefineEvent, RefineRun, RefineStage};
use ric3::statistic::Statistic;

fn lit(var: u32, polarity: bool) -> Lit {
    Lit::new(var, polarity)
}

/// The cube of the given variables, each positive.
fn cube(vars: &[u32]) -> Vec<Lit> {
    vars.iter().map(|v| lit(*v, true)).collect()
}

fn at_level(dynamic: bool, level: usize) -> IC3 {
    let params = mt_params(&MtEnv {
        min_level: None,
        abs_threshold_ms: None,
        median_factor: None,
        abs_expand_factor: None,
        exp_ratio: None,
        ratio_max: None,
        ratio_ramp_sec: None,
        exp_overshoot: None,
        exp_cap: None,
        log: None,
    });
    let cfg = Config {
        multi_fixed: None,
        multi_timeframe: true,
        multi_enabled: true,
        abs_cst: false,
        abs_trans: false,
        drop_po: false,
        dynamic,
        rseed: 0,
    };
    let mut ic3 = IC3::new(cfg, params);
    for _ in 0..level + 1 {
        ic3.extend();
    }
    ic3
}

#[test]
fn obligations_are_kept_in_order() {
    let link = Link::new(4, vec![lit(3, true), lit(1, false)], cube(&[9]), 2);
    assert_eq!(link.frame, 4);
    assert_eq!(link.lemma, vec![lit(1, false), lit(3, true)]);
    assert_eq!(link.input, cube(&[9]));
    assert_eq!(link.depth, 2);
    let before = Link::predecessor(4, 2, cube(&[8, 7]), cube(&[1]));
    assert_eq!((before.frame, before.depth), (3, 3));
    assert_eq!(before.lemma, cube(&[7, 8]));
    let bad = Link::bad_state(6, cube(&[2, 1]), cube(&[]));
    assert_eq!((bad.frame, bad.depth), (6, 0));
    assert_eq!(bad.lemma, cube(&[1, 2]));
}

#[test]
fn a_push_stops_where_the_cube_is_no_longer_inductive() {
    let mut run = PushRun::push_lemma(2, 6, cube(&[1, 2, 3]));
    assert_eq!(run.solver(), 2);
    run.step(PushEvent::Inductive(true));
    assert!(run.accepts(&PushEvent::Core(None)));
    run.step(PushEvent::Core(Some(cube(&[1, 3]))));
    assert_eq!(run.solver(), 3);
    run.step(PushEvent::Inductive(true));
    run.step(PushEvent::Core(None));
    assert_eq!(run.cube, cube(&[1, 3]));
    run.step(PushEvent::Inductive(false));
    assert_eq!(run.stage, PushStage::Done);
    assert_eq!(run.next, 5);
}

#[test]
fn a_push_goes_at_most_one_past_the_last_frame() {
    let mut run = PushRun::push_lemma(5, 6, cube(&[1]));
    run.step(PushEvent::Inductive(true));
    run.step(PushEvent::Core(None));
    assert_eq!(run.stage, PushStage::Done);
    assert_eq!(run.next, 7);
    let at_the_top = PushRun::push_lemma(6, 6, cube(&[1]));
    assert_eq!(at_the_top.stage, PushStage::Done);
    assert_eq!(at_the_top.next, 7);
    assert_eq!(at_the_top.cube, cube(&[1]));
}

#[test]
fn without_a_core_the_obligation_itself_becomes_the_lemma() {
    let mut run = GeneralizeRun::generalize(3, 8, &cube(&[1, 2]));
    run.step(GeneralizeEvent::Core(None));
    assert_eq!(run.stage, GeneralizeStage::Add { bumped: true });
    assert_eq!(run.cube, cube(&[1, 2]));
    assert_eq!(run.target, 4);
    assert_eq!(run.lemma_frame(), 3);
    run.step(GeneralizeEvent::Added(false));
    assert_eq!(run.stage, GeneralizeStage::Done(false));
}

#[test]
fn a_core_is_minimised_pushed_and_added() {
    let mut run = GeneralizeRun::generalize(3, 8, &cube(&[1, 2, 3]));
    run.step(GeneralizeEvent::Core(Some(cube(&[1, 2]))));
    assert_eq!(run.stage, GeneralizeStage::Mic);
    assert_eq!(run.cube, cube(&[1, 2]));
    run.step(GeneralizeEvent::Mic(cube(&[2])));
    assert!(!run.accepts(&GeneralizeEvent::Pushed { frame: 3, cube: cube(&[2]) }));
    assert!(!run.accepts(&GeneralizeEvent::Pushed { frame: 10, cube: cube(&[2]) }));
    run.step(GeneralizeEvent::Pushed { frame: 9, cube: cube(&[2]) });
    assert_eq!(run.lemma_frame(), 8);
    run.step(GeneralizeEvent::Added(true));
    assert_eq!(run.stage, GeneralizeStage::Done(true));
}

/// The effort that the activity asks for, as a formula on numbers.
fn effort(act: f64, limit: usize) -> DropVarParameter {
    if act >= 40.0 {
        DropVarParameter { limit, max: 5, level: 1 }
    } else if act >= 10.0 {
        DropVarParameter { limit: 1, max: (act - 10.0) as usize / 10 + 2, level: 1 }
    } else {
        DropVarParameter { limit: 0, max: 0, level: 0 }
    }
}

#[test]
fn effort_follows_the_activity() {
    let ic3 = at_level(true, 5);
    for act in [
        -1.0, 0.0, 9.999999999999998, 10.0, 19.999999999999996, 20.0, 29.999999999999996, 30.0,
        39.99999999999999, 40.0, 1e6, f64::INFINITY,
    ] {
        let peak = Some(Double::new(f64::to_bits(act)));
        let expected = MicChoice::ByActivity(effort(act, 9));
        assert_eq!(ic3.get_mic_type(peak, 9), expected, "{}", act);
        assert_eq!(ic3.get_drop_var_parameter(peak, 9), expected, "{}", act);
    }
    assert_eq!(ic3.get_mic_type(None, 9), MicChoice::Default);
    assert_eq!(ic3.get_drop_var_parameter(None, 9), MicChoice::Default);
    let fixed = at_level(false, 5);
    let peak = Some(Double::new(50.0f64.to_bits()));
    assert_eq!(fixed.get_mic_type(peak, 9), MicChoice::Configured);
    assert_eq!(fixed.get_drop_var_parameter(peak, 9), MicChoice::Default);
    // Without dynamic effort the activity is not looked at.
    let nan = Some(Double::new(f64::NAN.to_bits()));
    assert_eq!(fixed.get_mic_type(nan, 9), MicChoice::Configured);
    assert_eq!(fixed.get_drop_var_parameter(nan, 9), MicChoice::Default);
}

#[test]
fn three_next_obligations_count() {
    let acts: Vec<Double> =
        [3.0f64, 1.0, 7.0, 99.0].iter().map(|a| Double::new(a.to_bits())).collect();
    assert_eq!(IC3::peak_activity(&Vec::new()), None);
    assert_eq!(IC3::peak_activity(&acts[..1].to_vec()), Some(acts[0]));
    assert_eq!(IC3::peak_activity(&acts[..2].to_vec()), Some(acts[0]));
    assert_eq!(IC3::peak_activity(&acts), Some(acts[2]));
}

/// The set of kept literals after the literals of `kept` could not be
/// dropped.
fn keeping(kept: &[u32], statistic: &mut Statistic) -> DropVarRun {
    let mut run = DropVarRun::mt_mic(cube(kept), false, statistic);
    run.step(statistic, DropVarEvent::Sorted(cube(kept)));
    for _ in kept {
        run.step(statistic, DropVarEvent::Dropped(None));
    }
    assert_eq!(run.stage, DropVarStage::Done);
    run
}

#[test]
fn a_blocked_cube_shrinks_to_its_core() {
    let mut statistic = Statistic::new();
    let keep = keeping(&[], &mut statistic).keep;
    let mut run = DownRun::mt_down(&cube(&[1, 2, 3]), &mut statistic);
    assert_eq!(statistic.num_down, 1);
    run.step(&keep, &mut statistic, DownEvent::Init(false));
    assert_eq!(statistic.num_down_sat, 1);
    run.step(&keep, &mut statistic, DownEvent::Blocked(true));
    run.step(&keep, &mut statistic, DownEvent::Core(Some(cube(&[2]))));
    assert_eq!(run.stage, DownStage::Done);
    assert_eq!(run.cube, cube(&[2]));
}

#[test]
fn an_attempt_keeps_what_the_counterexample_needs() {
    let mut statistic = Statistic::new();
    let keep = keeping(&[4], &mut statistic).keep;
    let mut run = DownRun::mt_down(&cube(&[1, 2, 3, 4]), &mut statistic);
    run.step(&keep, &mut statistic, DownEvent::Init(false));
    run.step(&keep, &mut statistic, DownEvent::Blocked(false));
    assert_eq!(run.lit(), lit(1, true));
    run.step(&keep, &mut statistic, DownEvent::Value(None));
    assert_eq!(run.lit(), lit(2, true));
    run.step(&keep, &mut statistic, DownEvent::Value(Some(true)));
    assert!(run.accepts(&DownEvent::Flip(true)));
    run.step(&keep, &mut statistic, DownEvent::Flip(true));
    run.step(&keep, &mut statistic, DownEvent::Value(Some(true)));
    run.step(&keep, &mut statistic, DownEvent::Flip(false));
    assert_eq!(run.lit(), lit(4, true));
    run.step(&keep, &mut statistic, DownEvent::Value(Some(true)));
    // The literal that is kept needs no second question.
    assert_eq!(run.stage, DownStage::Init);
    assert_eq!(run.cube, cube(&[3, 4]));
    assert_eq!(statistic.num_down_sat, 1);
}

#[test]
fn attempts_fail_for_their_reasons() {
    let mut statistic = Statistic::new();
    let keep = keeping(&[1], &mut statistic).keep;
    let mut initial = DownRun::mt_down(&cube(&[1, 2]), &mut statistic);
    initial.step(&keep, &mut statistic, DownEvent::Init(true));
    assert_eq!(initial.stage, DownStage::Failed);
    let mut coreless = DownRun::mt_down(&cube(&[1, 2]), &mut statistic);
    coreless.step(&keep, &mut statistic, DownEvent::Init(false));
    coreless.step(&keep, &mut statistic, DownEvent::Blocked(true));
    coreless.step(&keep, &mut statistic, DownEvent::Core(None));
    assert_eq!(coreless.stage, DownStage::Failed);
    for value in [None, Some(false)] {
        let mut kept = DownRun::mt_down(&cube(&[1, 2]), &mut statistic);
        kept.step(&keep, &mut statistic, DownEvent::Init(false));
        kept.step(&keep, &mut statistic, DownEvent::Blocked(false));
        kept.step(&keep, &mut statistic, DownEvent::Value(value));
        assert_eq!(kept.stage, DownStage::Failed);
    }
}

#[test]
fn minimising_tries_every_literal() {
    let mut statistic = Statistic::new();
    let mut run = DropVarRun::mt_mic(cube(&[1, 2, 3]), false, &mut statistic);
    assert_eq!(statistic.num_mic, 1);
    run.step(&mut statistic, DropVarEvent::Sorted(cube(&[3, 1, 2])));
    assert_eq!(run.candidate(), cube(&[1, 2]));
    run.step(&mut statistic, DropVarEvent::Dropped(None));
    assert_eq!(run.candidate(), cube(&[3, 2]));
    run.step(&mut statistic, DropVarEvent::Dropped(Some(cube(&[3, 2]))));
    assert_eq!(run.stage, DropVarStage::Sort);
    // The literal that could not be dropped is not tried again.
    run.step(&mut statistic, DropVarEvent::Sorted(cube(&[3, 2])));
    assert_eq!(run.candidate(), cube(&[3]));
    run.step(&mut statistic, DropVarEvent::Dropped(None));
    assert_eq!(run.stage, DropVarStage::Done);
    assert_eq!(run.cube, cube(&[3, 2]));
    // One literal was dropped, two were refused.
    assert_eq!(
        format!("{:?}", statistic.mic_drop.rate()),
        "success: 1, fail: 2, success rate: 33.33%"
    );
}

#[test]
fn without_minimisation_the_cube_stays() {
    let mut statistic = Statistic::new();
    let run = DropVarRun::mt_mic(cube(&[2, 1]), true, &mut statistic);
    assert_eq!(run.stage, DropVarStage::Done);
    assert_eq!(run.cube, cube(&[2, 1]));
    assert_eq!(statistic.num_mic, 0);
}

#[test]
fn a_refinement_blocks_predecessors_first() {
    let ic3 = at_level(false, 6);
    let mut run: RefineRun = ic3.mt_rec_refine(2, &cube(&[1, 2]));
    run.step(RefineEvent::Init(false));
    run.step(RefineEvent::Blocked(false));
    run.step(RefineEvent::Pred(cube(&[9, 8])));
    assert_eq!(run.frame(), 1);
    assert_eq!(run.lemma(), cube(&[8, 9]));
    run.step(RefineEvent::Init(false));
    run.step(RefineEvent::Blocked(true));
    run.step(RefineEvent::Core(None));
    assert_eq!(run.cube, cube(&[8, 9]));
    run.step(RefineEvent::Mic(cube(&[8])));
    run.step(RefineEvent::Pushed { frame: 2, cube: cube(&[8]) });
    assert_eq!(run.lemma_frame(), 1);
    run.step(RefineEvent::Added);
    // Back to the cube it came from.
    assert_eq!(run.stage, RefineStage::Blocked);
    assert_eq!(run.frame(), 2);
    assert_eq!(run.lemma(), cube(&[1, 2]));
    run.step(RefineEvent::Blocked(true));
    run.step(RefineEvent::Core(Some(cube(&[2]))));
    run.step(RefineEvent::Mic(cube(&[2])));
    run.step(RefineEvent::Pushed { frame: 7, cube: cube(&[2]) });
    run.step(RefineEvent::Added);
    assert_eq!(run.stage, RefineStage::Done(true));
    assert_eq!(run.cube, cube(&[2]));
}

#[test]
fn a_refinement_fails_at_the_initial_states() {
    let ic3 = at_level(false, 6);
    assert_eq!(ic3.mt_rec_refine(0, &cube(&[1])).stage, RefineStage::Done(false));
    let mut meets = ic3.mt_rec_refine(3, &cube(&[1]));
    meets.step(RefineEvent::Init(true));
    assert_eq!(meets.stage, RefineStage::Done(false));
    let mut bottom = ic3.mt_rec_refine(1, &cube(&[1]));
    bottom.step(RefineEvent::Init(false));
    bottom.step(RefineEvent::Blocked(false));
    bottom.step(RefineEvent::Pred(cube(&[2])));
    assert_eq!(bottom.stage, RefineStage::Done(false));
}

#[test]
fn a_trivial_block_pays_for_each_cube() {
    let ic3 = at_level(false, 6);
    let effort = |limit| DropVarParameter { limit, max: 5, level: 1 };
    let mut none = ic3.trivial_block(3, &cube(&[1]), effort(0));
    none.step(RefineEvent::Init(false));
    assert_eq!(none.stage, RefineStage::Done(false));
    let mut one = ic3.trivial_block(3, &cube(&[1]), effort(1));
    one.step(RefineEvent::Init(false));
    assert_eq!(one.limit, Some(0));
    assert!(!one.accepts(&RefineEvent::Pred(cube(&[2]))));
    one.step(RefineEvent::Blocked(false));
    assert_eq!(one.stage, RefineStage::Done(false));
    let mut two = ic3.trivial_block(3, &cube(&[1]), effort(2));
    two.step(RefineEvent::Init(false));
    two.step(RefineEvent::Blocked(false));
    two.step(RefineEvent::Pred(cube(&[2])));
    two.step(RefineEvent::Init(false));
    assert_eq!(two.limit, Some(0));
    two.step(RefineEvent::Blocked(true));
    assert!(!two.accepts(&RefineEvent::Core(None)));
    two.step(RefineEvent::Core(Some(cube(&[2]))));
    two.step(RefineEvent::Mic(cube(&[2])));
    assert!(!two.accepts(&RefineEvent::Pushed { frame: 2, cube: cube(&[2]) }));
    assert!(!two.accepts(&RefineEvent::Pushed { frame: 8, cube: cube(&[2]) }));
    two.step(RefineEvent::Pushed { frame: 4, cube: cube(&[2]) });
    two.step(RefineEvent::Added);
    two.step(RefineEvent::Blocked(true));
    two.step(RefineEvent::Core(Some(cube(&[1]))));
    two.step(RefineEvent::Mic(cube(&[1])));
    two.step(RefineEvent::Pushed { frame: 4, cube: cube(&[1]) });
    two.step(RefineEvent::Added);
    assert_eq!(two.stage, RefineStage::Done(true));
}

#[test]
fn the_blocking_cube_is_the_union() {
    let mic = vec![lit(5, true), lit(1, false)];
    let core = vec![lit(1, false), lit(3, true), lit(5, true), lit(2, true)];
    assert_eq!(
        mt_get_blocking_cube(&mic, &core),
        vec![lit(5, true), lit(1, false), lit(3, true), lit(2, true)]
    );
    assert_eq!(mt_get_blocking_cube(&mic, &Vec::new()), mic);
    assert_eq!(mt_get_blocking_cube(&Vec::new(), &core), core);
}

fn attempt(ic3: &mut IC3) -> MtBlockRun {
    ic3.mt_block(6, 2, &cube(&[1, 2, 3]), 4, &vec![], &vec![vec![]; 4], &vec![])
}

#[test]
fn attempts_are_counted_by_expansion() {
    let mut ic3 = at_level(false, 6);
    attempt(&mut ic3);
    attempt(&mut ic3);
    ic3.mt_block(6, 2, &cube(&[1]), 2, &vec![], &vec![vec![]; 2], &vec![]);
    assert_eq!(ic3.timeframe_expansion, 2);
    let counts = &ic3.statistic.mt.mt_block_by_expansion;
    assert_eq!(counts.get(&4), Some(&2));
    assert_eq!(counts.get(&2), Some(&1));
    assert_eq!(counts.get(&3), None);
}

#[test]
fn an_attempt_tells_the_solver_what_the_frames_say() {
    let mut ic3 = at_level(false, 2);
    // Variable 1 at timeframe k is variable 1 + 10 * k.
    let copies = vec![cube(&[0, 1]), cube(&[10, 11])];
    let frames = vec![vec![], vec![cube(&[1])], vec![]];
    let init = vec![vec![lit(1, false)]];
    let run = ic3.mt_block(2, 0, &cube(&[1]), 2, &frames, &copies, &init);
    assert_eq!(run.clauses, vec![vec![lit(1, false)], vec![lit(11, false)], vec![lit(1, false)]]);
}

#[test]
fn a_multi_timeframe_lemma_is_refuted_twice_and_one_step_inductive() {
    let mut ic3 = at_level(false, 6);
    let mut run = attempt(&mut ic3);
    let mt = &mut ic3.statistic.mt;
    assert_eq!(run.horizon(), 3);
    run.step(mt, MtEvent::Blocked(true));
    run.step(mt, MtEvent::Core(Some(cube(&[3, 1]))));
    run.step(mt, MtEvent::Mic(cube(&[3])));
    run.step(mt, MtEvent::Refined(Some(cube(&[2, 3]))));
    assert_eq!(run.stage, MtStage::OneStep);
    assert_eq!(run.cube, cube(&[2, 3]));
    run.step(mt, MtEvent::OneStep(true));
    run.step(mt, MtEvent::OneStepCore(None));
    assert_eq!(run.cube, cube(&[2, 3]));
    assert!(!run.accepts(&MtEvent::Pushed { frame: 6, cube: cube(&[2]) }));
    assert!(!run.accepts(&MtEvent::Pushed { frame: 8, cube: cube(&[2]) }));
    run.step(mt, MtEvent::Pushed { frame: 7, cube: cube(&[2]) });
    assert_eq!(run.lemma_frame(), 6);
    assert_eq!(run.cube, cube(&[2]));
    run.step(mt, MtEvent::Added(false));
    assert_eq!(run.stage, MtStage::Done(MtBlockResult::Handled));
    assert_eq!(mt.mt_lemma_added, 1);
    assert!(run.links.is_empty());
}

#[test]
fn a_multi_timeframe_fixpoint_proves_the_property() {
    let mut ic3 = at_level(false, 6);
    let mut run = attempt(&mut ic3);
    let mt = &mut ic3.statistic.mt;
    for event in [
        MtEvent::Blocked(true),
        MtEvent::Core(Some(cube(&[3, 1]))),
        MtEvent::Mic(cube(&[3])),
        MtEvent::Refined(Some(cube(&[3]))),
        MtEvent::OneStep(true),
        MtEvent::OneStepCore(Some(cube(&[3]))),
        MtEvent::Pushed { frame: 7, cube: cube(&[3]) },
        MtEvent::Added(true),
    ] {
        assert!(run.accepts(&event));
        run.step(mt, event);
    }
    assert_eq!(run.stage, MtStage::Done(MtBlockResult::Proved));
}

#[test]
fn attempts_fall_back_for_their_reasons() {
    let mut ic3 = at_level(false, 6);
    let mut coreless = attempt(&mut ic3);
    let mut unrefuted = attempt(&mut ic3);
    let mut rejected = attempt(&mut ic3);
    let mt = &mut ic3.statistic.mt;
    coreless.step(mt, MtEvent::Blocked(true));
    coreless.step(mt, MtEvent::Core(None));
    assert_eq!(coreless.stage, MtStage::Done(MtBlockResult::Fallback));
    assert_eq!((mt.fb_no_core, mt.fb_rec_refine, mt.fb_gate_reject), (1, 0, 0));
    unrefuted.step(mt, MtEvent::Blocked(true));
    unrefuted.step(mt, MtEvent::Core(Some(cube(&[1]))));
    unrefuted.step(mt, MtEvent::Mic(cube(&[1])));
    unrefuted.step(mt, MtEvent::Refined(None));
    assert_eq!(unrefuted.stage, MtStage::Done(MtBlockResult::Fallback));
    assert_eq!((mt.fb_no_core, mt.fb_rec_refine, mt.fb_gate_reject), (1, 1, 0));
    rejected.step(mt, MtEvent::Blocked(true));
    rejected.step(mt, MtEvent::Core(Some(cube(&[1]))));
    rejected.step(mt, MtEvent::Mic(cube(&[1])));
    rejected.step(mt, MtEvent::Refined(Some(cube(&[2]))));
    rejected.step(mt, MtEvent::OneStep(false));
    assert_eq!(rejected.stage, MtStage::Done(MtBlockResult::Fallback));
    assert_eq!((mt.fb_no_core, mt.fb_rec_refine, mt.fb_gate_reject), (1, 1, 1));
    assert_eq!(mt.mt_lemma_added, 0);
}

#[test]
fn a_deep_predecessor_is_linked_by_single_steps() {
    let mut ic3 = at_level(false, 6);
    let mut run = attempt(&mut ic3);
    let mt = &mut ic3.statistic.mt;
    run.step(mt, MtEvent::Blocked(false));
    run.step(
        mt,
        MtEvent::Pred {
            model: cube(&[20, 10]),
            inputs: vec![cube(&[50]), cube(&[51]), cube(&[52])],
            mid_states: vec![cube(&[31]), cube(&[42, 32])],
        },
    );
    assert_eq!(run.stage, MtStage::Done(MtBlockResult::Handled));
    let links: Vec<(usize, Vec<Lit>, Vec<Lit>, usize)> = run
        .links
        .iter()
        .map(|l| (l.frame, l.lemma.clone(), l.input.clone(), l.depth))
        .collect();
    assert_eq!(
        links,
        vec![
            (2, cube(&[10, 20]), cube(&[50]), 6),
            (3, cube(&[31]), cube(&[51]), 5),
            (4, cube(&[32, 42]), cube(&[52]), 4),
            (5, cube(&[]), cube(&[]), 3),
        ]
    );
}
