//! The multi-timeframe parameters.
//!
//! Every parameter has a default and can be overridden through an environment
//! variable. A variable that is unset, does not parse or is out of range
//! silently leaves the default in place.

use vstd::prelude::*;

use crate::double::Double;
use crate::double::{ONE, QUARTER, THREE_QUARTERS, TWENTY_FOUR_HUNDRED, TWO, ZERO};
use crate::duration::Duration;
use crate::parse::{parse_nonzero, parse_unsigned, unsigned_value};

verus! {

/// The values of the environment variables, as far as they are set: integers
/// as the text that stands there, other numbers parsed.
pub struct MtEnv {
    /// RIC3_MT_MIN_LEVEL
    pub min_level: Option<String>,
    /// RIC3_MT_ABS_THRESHOLD_MS
    pub abs_threshold_ms: Option<String>,
    /// RIC3_MT_MEDIAN_FACTOR
    pub median_factor: Option<String>,
    /// RIC3_MT_ABS_EXPAND_FACTOR
    pub abs_expand_factor: Option<Double>,
    /// RIC3_MT_EXP_RATIO
    pub exp_ratio: Option<Double>,
    /// RIC3_MT_RATIO_MAX
    pub ratio_max: Option<Double>,
    /// RIC3_MT_RATIO_RAMP_SEC
    pub ratio_ramp_sec: Option<Double>,
    /// RIC3_MT_EXP_OVERSHOOT
    pub exp_overshoot: Option<String>,
    /// RIC3_MT_EXP_CAP
    pub exp_cap: Option<String>,
    /// RIC3_MT_LOG
    pub log: Option<String>,
}

/// The resolved parameters.
#[derive(Clone, Copy)]
pub struct MtParams {
    /// The level from which on the checker looks at more than one timeframe
    /// (default 4). At shallow levels a restart only confiscates the
    /// obligation queue without buying depth.
    pub min_level: usize,
    /// The time after which a blocking phase counts as stuck (default 10 s),
    /// before the scaling by `abs_expand_factor`.
    pub abs_threshold: Duration,
    /// The phase must also take longer than the median phase times this
    /// factor (default 2).
    pub median_factor: u32,
    /// The factor by which each escalation scales `abs_threshold` (default 2).
    pub abs_expand_factor: Double,
    /// The share of the level at which the expansion ceiling starts (default
    /// 0.25). At 0 the checker starts out with single steps.
    pub ratio_start: Double,
    /// The share of the level at which the expansion ceiling ends (default
    /// 0.75, or the start where that is higher).
    pub ratio_max: Double,
    /// The seconds over which the ceiling rises from start to end (default
    /// 2400).
    pub ratio_ramp_sec: Double,
    /// How often an obligation that keeps pressing against the ceiling may
    /// double it (default 2).
    pub overshoot_max: usize,
    /// An absolute bound on the expansion (default none).
    pub exp_cap: Option<usize>,
    /// Whether to report restarts and raised ceilings (default off).
    pub log: bool,
}

/// The integer that a variable holds, where it is set and holds one of at
/// most `max`.
pub open spec fn integer_setting(text: Option<String>, max: nat) -> Option<nat> {
    match text {
        Some(s) => crate::parse::unsigned_value(s@, max),
        None => None,
    }
}

/// The number that a variable holds, where it is set and within bounds.
pub open spec fn setting_within(
    value: Option<Double>,
    low: Double,
    high: Double,
) -> Option<Double> {
    match value {
        Some(v) if low.spec_le(v) && v.spec_le(high) => Some(v),
        _ => None,
    }
}

/// The number that a variable holds, where it is set and positive.
pub open spec fn positive_setting(value: Option<Double>) -> Option<Double> {
    match value {
        Some(v) if (Double { bits: ZERO }).spec_lt(v) => Some(v),
        _ => None,
    }
}

/// What stands there, or the default.
pub open spec fn or_default<T>(value: Option<T>, default: T) -> T {
    match value {
        Some(v) => v,
        None => default,
    }
}

impl MtParams {
    /// The ramp does not fall and stays between 0 and 1, and what scales or
    /// divides is positive.
    pub open spec fn in_range(self) -> bool {
        &&& (Double { bits: ZERO }).spec_le(self.ratio_start)
        &&& self.ratio_start.spec_le(self.ratio_max)
        &&& self.ratio_max.spec_le(Double { bits: ONE })
        &&& (Double { bits: ZERO }).spec_lt(self.ratio_ramp_sec)
        &&& (Double { bits: ZERO }).spec_lt(self.abs_expand_factor)
    }
}

/// The integer in a variable of at most `max`.
fn integer_env(text: &Option<String>, max: u64) -> (r: Option<u64>)
    ensures
        match r {
            Some(v) => integer_setting(*text, max as nat) == Some(v as nat),
            None => integer_setting(*text, max as nat) is None,
        },
{
    match text {
        Some(s) => parse_unsigned(s.as_str(), max),
        None => None,
    }
}

/// The count in a variable.
fn count_env(text: &Option<String>) -> (r: Option<usize>)
    ensures
        match r {
            Some(v) => integer_setting(*text, usize::MAX as nat) == Some(v as nat),
            None => integer_setting(*text, usize::MAX as nat) is None,
        },
{
    match integer_env(text, usize::MAX as u64) {
        Some(v) => Some(v as usize),
        None => None,
    }
}

/// Resolves the parameters.
pub fn mt_params(env: &MtEnv) -> (p: MtParams)
    ensures
        p.min_level == or_default(integer_setting(env.min_level, usize::MAX as nat), 4),
        p.abs_threshold@ == or_default(
            integer_setting(env.abs_threshold_ms, u64::MAX as nat),
            10_000,
        ) * crate::duration::NANOS_PER_MILLI,
        p.median_factor == or_default(integer_setting(env.median_factor, u32::MAX as nat), 2),
        p.abs_expand_factor == or_default(
            positive_setting(env.abs_expand_factor),
            Double { bits: TWO },
        ),
        p.ratio_start == or_default(
            setting_within(env.exp_ratio, Double { bits: ZERO }, Double { bits: ONE }),
            Double { bits: QUARTER },
        ),
        p.ratio_max == or_default(
            setting_within(env.ratio_max, p.ratio_start, Double { bits: ONE }),
            p.ratio_start.spec_max(Double { bits: THREE_QUARTERS }),
        ),
        p.ratio_ramp_sec == or_default(
            positive_setting(env.ratio_ramp_sec),
            Double { bits: TWENTY_FOUR_HUNDRED },
        ),
        p.overshoot_max == or_default(integer_setting(env.exp_overshoot, usize::MAX as nat), 2),
        match p.exp_cap {
            Some(cap) => integer_setting(env.exp_cap, usize::MAX as nat) == Some(cap as nat),
            None => integer_setting(env.exp_cap, usize::MAX as nat) is None,
        },
        p.log <==> env.log is Some && crate::parse::signed_value(env.log->0@) is Some
            && crate::parse::signed_value(env.log->0@) != Some(0int),
        p.in_range(),
        env.min_level is None ==> p.min_level == 4,
        env.abs_threshold_ms is None ==> p.abs_threshold@ == 10_000_000_000,
        env.median_factor is None ==> p.median_factor == 2,
        env.exp_overshoot is None ==> p.overshoot_max == 2,
        env.exp_cap is None ==> p.exp_cap is None,
        env.log is None ==> !p.log,
        env.min_level matches Some(s) ==> match unsigned_value(s@, usize::MAX as nat) {
            Some(v) => p.min_level == v,
            None => p.min_level == 4,
        },
        env.abs_threshold_ms matches Some(s) ==> match unsigned_value(s@, u64::MAX as nat) {
            Some(v) => p.abs_threshold@ == v * 1_000_000,
            None => p.abs_threshold@ == 10_000_000_000,
        },
        env.median_factor matches Some(s) ==> match unsigned_value(s@, u32::MAX as nat) {
            Some(v) => p.median_factor == v,
            None => p.median_factor == 2,
        },
        env.exp_overshoot matches Some(s) ==> match unsigned_value(s@, usize::MAX as nat) {
            Some(v) => p.overshoot_max == v,
            None => p.overshoot_max == 2,
        },
        env.exp_cap matches Some(s) ==> match unsigned_value(s@, usize::MAX as nat) {
            Some(v) => p.exp_cap matches Some(cap) && cap == v,
            None => p.exp_cap is None,
        },
        env.abs_expand_factor matches Some(f) ==> (Double { bits: ZERO }).spec_lt(f)
            ==> p.abs_expand_factor == f,
        env.ratio_ramp_sec matches Some(f) ==> (Double { bits: ZERO }).spec_lt(f)
            ==> p.ratio_ramp_sec == f,
        env.exp_ratio matches Some(f) ==> (Double { bits: ZERO }).spec_le(f) && f.spec_le(
            Double { bits: ONE },
        ) ==> p.ratio_start == f,
        env.ratio_max matches Some(f) ==> p.ratio_start.spec_le(f) && f.spec_le(
            Double { bits: ONE },
        ) ==> p.ratio_max == f,
        env.abs_expand_factor != Some(p.abs_expand_factor) ==> p.abs_expand_factor.bits == TWO,
        env.ratio_ramp_sec != Some(p.ratio_ramp_sec) ==> p.ratio_ramp_sec.bits
            == TWENTY_FOUR_HUNDRED,
        env.exp_ratio != Some(p.ratio_start) ==> p.ratio_start.bits == QUARTER,
        env.ratio_max != Some(p.ratio_max) ==> p.ratio_max.bits == THREE_QUARTERS || p.ratio_max
            == p.ratio_start,
        env.ratio_max != Some(p.ratio_max) ==> (Double { bits: THREE_QUARTERS }).spec_le(
            p.ratio_max,
        ),
{
    let zero = Double::new(ZERO);
    let one = Double::new(ONE);
    let min_level: usize = match count_env(&env.min_level) {
        Some(v) => v,
        None => 4,
    };
    let abs_threshold_ms: u64 = match integer_env(&env.abs_threshold_ms, u64::MAX) {
        Some(v) => v,
        None => 10_000,
    };
    let median_factor: u32 = match integer_env(&env.median_factor, u32::MAX as u64) {
        Some(v) => v as u32,
        None => 2,
    };
    let abs_expand_factor = match env.abs_expand_factor {
        Some(f) if zero.lt(&f) => f,
        _ => Double::new(TWO),
    };
    let ratio_start = match env.exp_ratio {
        Some(r) if r.within(&zero, &one) => r,
        _ => Double::new(QUARTER),
    };
    let ratio_max = match env.ratio_max {
        Some(m) if m.within(&ratio_start, &one) => m,
        _ => ratio_start.max(&Double::new(THREE_QUARTERS)),
    };
    let ratio_ramp_sec = match env.ratio_ramp_sec {
        Some(t) if zero.lt(&t) => t,
        _ => Double::new(TWENTY_FOUR_HUNDRED),
    };
    let overshoot_max: usize = match count_env(&env.exp_overshoot) {
        Some(v) => v,
        None => 2,
    };
    let log: bool = match &env.log {
        Some(s) => match parse_nonzero(s.as_str()) {
            Some(b) => b,
            None => false,
        },
        None => false,
    };
    MtParams {
        min_level,
        abs_threshold: Duration::from_millis(abs_threshold_ms),
        median_factor,
        abs_expand_factor,
        ratio_start,
        ratio_max,
        ratio_ramp_sec,
        overshoot_max,
        exp_cap: count_env(&env.exp_cap),
        log,
    }
}

} // verus!
