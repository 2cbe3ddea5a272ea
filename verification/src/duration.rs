//! Spans of time with nanosecond resolution.

use vstd::prelude::*;

verus! {

/// Nanoseconds in one second.
pub const NANOS_PER_SEC: u128 = 1_000_000_000;

/// Nanoseconds in one millisecond.
pub const NANOS_PER_MILLI: u128 = 1_000_000;

/// The longest span, in nanoseconds: `u64::MAX` seconds and 999_999_999 nanoseconds.
pub const MAX_NANOS: u128 = 18_446_744_073_709_551_615_999_999_999;

/// A span of time. Its view is its length in nanoseconds.
#[derive(Clone, Copy, PartialEq, Eq, Structural, Debug)]
pub struct Duration {
    nanos: u128,
}

impl View for Duration {
    type V = nat;

    closed spec fn view(&self) -> nat {
        self.nanos as nat
    }
}

impl Duration {
    #[verifier::type_invariant]
    spec fn within_range(self) -> bool {
        self.nanos <= MAX_NANOS
    }

    /// The span of `secs` seconds and `subsec_nanos` nanoseconds.
    pub fn new(secs: u64, subsec_nanos: u32) -> (r: Self)
        requires
            subsec_nanos < NANOS_PER_SEC,
        ensures
            r@ == secs * NANOS_PER_SEC + subsec_nanos,
    {
        Duration { nanos: secs as u128 * NANOS_PER_SEC + subsec_nanos as u128 }
    }

    /// The span of `millis` milliseconds.
    pub fn from_millis(millis: u64) -> (r: Self)
        ensures
            r@ == millis * NANOS_PER_MILLI,
    {
        Duration { nanos: millis as u128 * NANOS_PER_MILLI }
    }

    /// The length of the span in nanoseconds.
    pub fn as_nanos(&self) -> (r: u128)
        ensures
            r == self@,
            r <= MAX_NANOS,
    {
        proof {
            use_type_invariant(self);
        }
        self.nanos
    }

    /// The length of the span in whole milliseconds.
    pub fn as_millis(&self) -> (r: u128)
        ensures
            r == self@ / (NANOS_PER_MILLI as nat),
    {
        self.nanos / NANOS_PER_MILLI
    }

    /// Whether the span is strictly shorter than `other`.
    pub fn shorter_than(&self, other: &Self) -> (r: bool)
        ensures
            r <==> self@ < other@,
    {
        self.nanos < other.nanos
    }

    /// Whether the span is strictly longer than `factor` times `other`.
    pub fn exceeds_multiple(&self, other: &Self, factor: u32) -> (r: bool)
        ensures
            r <==> self@ > other@ * factor,
    {
        proof {
            use_type_invariant(other);
            assert(other.nanos * factor <= MAX_NANOS * 0xffff_ffff) by (nonlinear_arith)
                requires
                    other.nanos <= MAX_NANOS,
                    factor <= 0xffff_ffff,
            ;
        }
        self.nanos > other.nanos * factor as u128
    }
}

/// Spans of equal length are equal.
pub proof fn lemma_duration_by_length(a: Duration, b: Duration)
    requires
        a@ == b@,
    ensures
        a == b,
{
}

} // verus!
