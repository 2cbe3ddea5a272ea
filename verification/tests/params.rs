//! The multi-timeframe parameters and the numbers they are read from.

use ric3::double::Double;
use ric3::duration::Duration;
use ric3::params::{mt_params, MtEnv};
use ric3::parse::{parse_nonzero, parse_unsigned};

fn double(x: f64) -> Double {
    Double::new(x.to_bits())
}

fn unset() -> MtEnv {
    MtEnv {
        min_level: None,
        abs_threshold_ms: None,
        median_factor: None,
        abs_expand_factor: None,
        exp_ratio: None,
        ratio_max: None,
        ratio_ramp_sec: None,
        exp_overshoot: None,
        exp_cap: None,
        log: None,
    }
}

fn text(s: &str) -> Option<String> {
    Some(s.to_string())
}

#[test]
fn unset_variables_leave_the_defaults() {
    let p = mt_params(&unset());
    assert_eq!(p.min_level, 4);
    assert_eq!(p.abs_threshold, Duration::from_millis(10_000));
    assert_eq!(p.median_factor, 2);
    assert_eq!(p.abs_expand_factor, double(2.0));
    assert_eq!(p.ratio_start, double(0.25));
    assert_eq!(p.ratio_max, double(0.75));
    assert_eq!(p.ratio_ramp_sec, double(2400.0));
    assert_eq!(p.overshoot_max, 2);
    assert_eq!(p.exp_cap, None);
    assert!(!p.log);
}

#[test]
fn set_variables_are_taken() {
    let p = mt_params(&MtEnv {
        min_level: text("7"),
        abs_threshold_ms: text("250"),
        median_factor: text("3"),
        abs_expand_factor: Some(double(1.5)),
        exp_ratio: Some(double(0.5)),
        ratio_max: Some(double(0.5)),
        ratio_ramp_sec: Some(double(60.0)),
        exp_overshoot: text("0"),
        exp_cap: text("16"),
        log: text("-1"),
    });
    assert_eq!(p.min_level, 7);
    assert_eq!(p.abs_threshold, Duration::from_millis(250));
    assert_eq!(p.median_factor, 3);
    assert_eq!(p.abs_expand_factor, double(1.5));
    assert_eq!(p.ratio_start, double(0.5));
    assert_eq!(p.ratio_max, double(0.5));
    assert_eq!(p.ratio_ramp_sec, double(60.0));
    assert_eq!(p.overshoot_max, 0);
    assert_eq!(p.exp_cap, Some(16));
    assert!(p.log);
}

#[test]
fn a_start_of_zero_is_legal() {
    let p = mt_params(&MtEnv { exp_ratio: Some(double(0.0)), ..unset() });
    assert_eq!(p.ratio_start, double(0.0));
}

#[test]
fn values_out_of_range_leave_the_defaults() {
    let p = mt_params(&MtEnv {
        min_level: text("-1"),
        abs_threshold_ms: text("1e3"),
        median_factor: text("4294967296"),
        abs_expand_factor: Some(double(0.0)),
        exp_ratio: Some(double(1.5)),
        ratio_max: Some(double(0.1)),
        ratio_ramp_sec: Some(double(-5.0)),
        exp_overshoot: text(""),
        exp_cap: text("many"),
        log: text("yes"),
    });
    let d = mt_params(&unset());
    assert_eq!(p.min_level, d.min_level);
    assert_eq!(p.abs_threshold, d.abs_threshold);
    assert_eq!(p.median_factor, d.median_factor);
    assert_eq!(p.abs_expand_factor, d.abs_expand_factor);
    assert_eq!(p.ratio_start, d.ratio_start);
    assert_eq!(p.ratio_max, d.ratio_max);
    assert_eq!(p.ratio_ramp_sec, d.ratio_ramp_sec);
    assert_eq!(p.overshoot_max, d.overshoot_max);
    assert_eq!(p.exp_cap, d.exp_cap);
    assert_eq!(p.log, d.log);
}

#[test]
fn not_a_number_leaves_the_defaults() {
    let nan = Some(double(f64::NAN));
    let p = mt_params(&MtEnv {
        abs_expand_factor: nan,
        exp_ratio: nan,
        ratio_max: nan,
        ratio_ramp_sec: nan,
        ..unset()
    });
    assert_eq!(p.abs_expand_factor, double(2.0));
    assert_eq!(p.ratio_start, double(0.25));
    assert_eq!(p.ratio_max, double(0.75));
    assert_eq!(p.ratio_ramp_sec, double(2400.0));
}

#[test]
fn the_end_of_the_ramp_never_undercuts_its_start() {
    let only_start = mt_params(&MtEnv { exp_ratio: Some(double(0.9)), ..unset() });
    assert_eq!(only_start.ratio_max, double(0.9));
    let below = mt_params(&MtEnv {
        exp_ratio: Some(double(0.5)),
        ratio_max: Some(double(0.4)),
        ..unset()
    });
    assert_eq!(below.ratio_max, double(0.75));
}

#[test]
fn integers_parse_as_the_standard_library_parses_them() {
    for s in ["0", "42", "+7", "007", "18446744073709551615", "18446744073709551616", "", "+", "-0",
        "-3", " 4", "4 ", "1_000", "0x10", "٣"]
    {
        assert_eq!(parse_unsigned(s, u64::MAX), s.parse::<u64>().ok(), "{}", s);
        assert_eq!(
            parse_unsigned(s, u32::MAX as u64),
            s.parse::<u32>().ok().map(|v| v as u64),
            "{}",
            s
        );
    }
    for s in ["0", "-0", "+0", "1", "-1", "9223372036854775807", "9223372036854775808",
        "-9223372036854775808", "-9223372036854775809", "", "-", "on"]
    {
        assert_eq!(parse_nonzero(s), s.parse::<i64>().ok().map(|v| v != 0), "{}", s);
    }
}

#[test]
fn patterns_compare_as_the_numbers_do() {
    let samples = [
        0.0,
        -0.0,
        0.25,
        0.75,
        1.0,
        -1.0,
        9.999999999999998,
        10.0,
        40.0,
        1e300,
        -1e300,
        f64::MIN_POSITIVE,
        5e-324,
        f64::INFINITY,
        f64::NEG_INFINITY,
        f64::NAN,
    ];
    for a in samples {
        assert_eq!(double(a).nan(), a.is_nan());
        for b in samples {
            assert_eq!(double(a).le(&double(b)), a <= b, "{} <= {}", a, b);
            assert_eq!(double(a).lt(&double(b)), a < b, "{} < {}", a, b);
            let max = f64::from_bits(double(a).max(&double(b)).bits);
            assert!(max == a.max(b) || (max.is_nan() && a.max(b).is_nan()), "{} {}", a, b);
            assert_eq!(double(0.5).within(&double(a), &double(b)), (a..=b).contains(&0.5));
        }
    }
}
