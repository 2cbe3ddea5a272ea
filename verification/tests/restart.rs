//! When a blocking phase restarts, and how deep it then looks.

use ric3::duration::Duration;
use ric3::ic3::{Config, IC3};
use ric3::lit::{order_cube, Lit};
use ric3::params::{mt_params, MtEnv, MtParams};

fn defaults() -> MtParams {
    mt_params(&MtEnv {
        min_level: None,
        abs_threshold_ms: None,
        median_factor: None,
        abs_expand_factor: None,
        exp_ratio: None,
        ratio_max: None,
        ratio_ramp_sec: None,
        exp_overshoot: None,
        exp_cap: None,
        log: None,
    })
}

fn config() -> Config {
    Config {
        multi_fixed: None,
        multi_timeframe: true,
        multi_enabled: true,
        abs_cst: false,
        abs_trans: false,
        drop_po: false,
        dynamic: false,
        rseed: 1,
    }
}

/// A checker at the given level.
fn at_level(cfg: Config, params: MtParams, level: usize) -> IC3 {
    let mut ic3 = IC3::new(cfg, params);
    assert!(ic3.base());
    for _ in 0..level {
        ic3.extend();
    }
    assert_eq!(ic3.level(), level);
    ic3
}

/// The ramp's share of the level after `t` seconds.
fn ramp(p: &MtParams, level: usize, t: f64) -> usize {
    let start = f64::from_bits(p.ratio_start.bits);
    let max = f64::from_bits(p.ratio_max.bits);
    let ramp_sec = f64::from_bits(p.ratio_ramp_sec.bits);
    let ratio = start + (max - start) * (t / ramp_sec).min(1.0);
    (ratio * level as f64).ceil() as usize
}

fn secs(s: u64) -> Duration {
    Duration::new(s, 0)
}

#[test]
fn a_new_checker_has_no_frames_and_no_history() {
    let ic3 = IC3::new(config(), defaults());
    assert_eq!(ic3.num_solvers, 0);
    assert_eq!(ic3.timeframe_expansion, 1);
    assert_eq!(ic3.mt_escalations, 0);
    assert_eq!(ic3.mt_overshoot_used, 0);
    assert_eq!(ic3.mt_overshoot_level, usize::MAX);
    assert!(!ic3.mt_restart_pending);
    assert_eq!(ic3.blocking_time_median.count(), 0);
    assert_eq!(ic3.statistic.num_mic, 0);
    assert_eq!(ic3.statistic.mt.num_restart, 0);
    assert!(ic3.statistic.mt.mt_block_by_expansion.is_empty());
}

#[test]
fn the_hard_cap_is_the_level_or_the_configured_cap() {
    assert_eq!(at_level(config(), defaults(), 0).mt_hard_cap(), 1);
    assert_eq!(at_level(config(), defaults(), 12).mt_hard_cap(), 12);
    let capped = MtParams { exp_cap: Some(5), ..defaults() };
    assert_eq!(at_level(config(), capped, 12).mt_hard_cap(), 5);
    assert_eq!(at_level(config(), capped, 3).mt_hard_cap(), 3);
    let zero = MtParams { exp_cap: Some(0), ..defaults() };
    assert_eq!(at_level(config(), zero, 3).mt_hard_cap(), 1);
}

#[test]
fn the_ceiling_follows_the_ramp_and_doubles_when_earned() {
    let p = defaults();
    let mut ic3 = at_level(config(), p, 20);
    assert_eq!(ramp(&p, 20, 0.0), 5);
    assert_eq!(ramp(&p, 20, 1200.0), 10);
    assert_eq!(ramp(&p, 20, 2400.0), 15);
    assert_eq!(ramp(&p, 20, 99999.0), 15);
    assert_eq!(ic3.max_timeframe_expansion(5), 5);
    assert_eq!(ic3.max_timeframe_expansion(0), 1);
    ic3.mt_overshoot_used = 1;
    assert_eq!(ic3.max_timeframe_expansion(5), 10);
    ic3.mt_overshoot_used = 2;
    assert_eq!(ic3.max_timeframe_expansion(5), 20);
    ic3.mt_overshoot_used = 1000;
    assert_eq!(ic3.max_timeframe_expansion(5), 20);
}

#[test]
fn the_expansion_doubles_within_the_ceiling() {
    let mut ic3 = at_level(config(), defaults(), 20);
    let mut seen = vec![];
    for _ in 0..4 {
        ic3.update_timeframe_expansion(5);
        seen.push(ic3.timeframe_expansion);
    }
    assert_eq!(seen, vec![2, 4, 5, 5]);
    assert_eq!(ic3.mt_escalations, 4);
}

#[test]
fn earned_doublings_survive_at_their_level_only() {
    let mut ic3 = at_level(config(), defaults(), 8);
    ic3.mt_overshoot_used = 2;
    ic3.mt_overshoot_level = 8;
    ic3.mt_overshoot_phase_reset();
    assert_eq!(ic3.mt_overshoot_used, 2);
    ic3.extend();
    ic3.mt_overshoot_phase_reset();
    assert_eq!(ic3.mt_overshoot_used, 0);
    assert_eq!(ic3.mt_overshoot_level, usize::MAX);
}

#[test]
fn restarts_need_leave() {
    let fixed = Config { multi_fixed: Some(3), ..config() };
    assert!(!at_level(fixed, defaults(), 20).is_time_to_restart(secs(99), secs(10), 5));
    let off = Config { multi_timeframe: false, ..config() };
    assert!(!at_level(off, defaults(), 20).is_time_to_restart(secs(99), secs(10), 5));
    let mut shallow = at_level(config(), defaults(), 3);
    assert!(!shallow.is_time_to_restart(secs(99), secs(10), 1));
    assert_eq!(shallow.statistic.mt.restart_checks, 0);
    assert!(at_level(config(), defaults(), 4).is_time_to_restart(secs(99), secs(10), 2));
}

#[test]
fn only_doubly_difficult_phases_restart() {
    let mut ic3 = at_level(config(), defaults(), 20);
    // No samples: the absolute threshold decides alone.
    assert!(!ic3.is_time_to_restart(secs(10), secs(10), 5));
    assert_eq!(ic3.statistic.mt.rel_only, 1);
    assert!(ic3.is_time_to_restart(Duration::from_millis(10_001), secs(10), 5));
    assert_eq!(ic3.statistic.mt.num_restart, 1);
    // A median of 30 s: only what takes longer than 60 s is difficult.
    ic3.blocking_time_median.add(secs(30));
    assert!(!ic3.is_time_to_restart(secs(60), secs(10), 5));
    assert_eq!(ic3.statistic.mt.abs_only, 1);
    assert!(ic3.is_time_to_restart(secs(61), secs(10), 5));
    assert!(!ic3.is_time_to_restart(secs(5), secs(10), 5));
    assert_eq!(ic3.statistic.mt.restart_checks, 5);
    assert_eq!(ic3.statistic.mt.abs_only, 1);
    assert_eq!(ic3.statistic.mt.rel_only, 1);
    assert_eq!(ic3.statistic.mt.num_restart, 2);
}

#[test]
fn a_pressing_obligation_earns_doublings_until_it_commits() {
    let mut ic3 = at_level(config(), defaults(), 20);
    let mut expansions = vec![];
    for _ in 0..10 {
        if !ic3.is_time_to_restart(secs(99), secs(10), 5) {
            break;
        }
        let before = ic3.timeframe_expansion;
        ic3.update_timeframe_expansion(5);
        assert!(ic3.timeframe_expansion > before);
        assert!(ic3.timeframe_expansion >= 2);
        expansions.push(ic3.timeframe_expansion);
    }
    assert_eq!(expansions, vec![2, 4, 5, 10, 20]);
    assert_eq!(ic3.mt_overshoot_used, 2);
    assert_eq!(ic3.mt_overshoot_level, 20);
}

#[test]
fn doublings_run_out() {
    let mut ic3 = at_level(config(), MtParams { overshoot_max: 1, ..defaults() }, 100);
    ic3.timeframe_expansion = 25;
    assert!(ic3.is_time_to_restart(secs(99), secs(10), 25));
    ic3.update_timeframe_expansion(25);
    assert_eq!(ic3.timeframe_expansion, 50);
    assert!(!ic3.is_time_to_restart(secs(99), secs(10), 25));
    assert_eq!(ic3.mt_overshoot_used, 1);
}

#[test]
fn a_ceiling_on_the_hard_cap_is_not_pressed() {
    let mut ic3 = at_level(config(), MtParams { exp_cap: Some(4), ..defaults() }, 100);
    ic3.timeframe_expansion = 4;
    assert!(!ic3.is_time_to_restart(secs(99), secs(10), 25));
    assert_eq!(ic3.mt_overshoot_used, 0);
}

#[test]
fn shuffling_permutes() {
    let mut ic3 = IC3::new(config(), defaults());
    let sorted: Vec<Lit> = (1..200).map(|v| Lit::new(v, true)).collect();
    let mut lits = sorted.clone();
    ic3.shuffle(&mut lits);
    assert_ne!(lits, sorted);
    assert_eq!(order_cube(lits), sorted);
}

#[test]
fn seeds_are_reproducible_and_move_on() {
    let mut a = IC3::new(config(), defaults());
    let mut b = IC3::new(config(), defaults());
    let mut c = IC3::new(Config { rseed: 2, ..config() }, defaults());
    let first = a.solver_seed();
    assert_eq!(first, b.solver_seed());
    assert_ne!(first, c.solver_seed());
    assert_ne!(first, a.solver_seed());
}

#[test]
fn the_same_seed_gives_the_same_orders_and_numbers() {
    let sorted: Vec<Lit> = (1..50).map(|v| Lit::new(v, true)).collect();
    let mut a = IC3::new(config(), defaults());
    let mut b = IC3::new(config(), defaults());
    let mut c = IC3::new(Config { rseed: 2, ..config() }, defaults());
    let mut orders = vec![sorted.clone(), sorted.clone(), sorted.clone()];
    a.shuffle(&mut orders[0]);
    b.shuffle(&mut orders[1]);
    c.shuffle(&mut orders[2]);
    assert_eq!(orders[0], orders[1]);
    assert_ne!(orders[0], orders[2]);
    assert_eq!(a.solver_seed(), b.solver_seed());
    // The generator has moved on: the next order is another one.
    let mut next = sorted;
    a.shuffle(&mut next);
    assert_ne!(next, orders[0]);
}

#[test]
fn auxiliary_variables_are_recorded() {
    let mut ic3 = IC3::new(config(), defaults());
    ic3.record_auxiliary_vars(17);
    assert_eq!(ic3.statistic.num_auxiliary_var, 17);
}
