//! Lengths of time, counted in nanoseconds.

use vstd::prelude::*;

verus! {

/// Nanoseconds in a millisecond.
pub const NANOS_PER_MILLI: u128 = 1_000_000;

/// Nanoseconds in a second.
pub const NANOS_PER_SEC: u128 = 1_000_000_000;

/// The longest span a `std::time::Duration` can hold: `u64::MAX` seconds and
/// 999,999,999 nanoseconds.
pub const MAX_SPAN_NANOS: u128 = 18_446_744_073_709_551_615_999_999_999;

/// A length of time, as a count of nanoseconds.
#[derive(Clone, Copy, Debug, PartialEq, Eq, Structural)]
pub struct Span {
    pub nanos: u128,
}

impl View for Span {
    type V = nat;

    open spec fn view(&self) -> nat {
        self.nanos as nat
    }
}

impl Span {
    /// No time at all.
    pub fn zero() -> (s: Span)
        ensures
            s@ == 0,
    {
        Span { nanos: 0 }
    }

    /// `millis` milliseconds.
    pub fn from_millis(millis: u64) -> (s: Span)
        ensures
            s@ == millis * NANOS_PER_MILLI,
            s@ <= MAX_SPAN_NANOS,
    {
        assert(millis * NANOS_PER_MILLI <= u64::MAX * NANOS_PER_MILLI) by (nonlinear_arith)
            requires
                millis <= u64::MAX,
        ;
        Span { nanos: millis as u128 * NANOS_PER_MILLI }
    }

    /// `secs` seconds.
    pub fn from_secs(secs: u64) -> (s: Span)
        ensures
            s@ == secs * NANOS_PER_SEC,
            s@ <= MAX_SPAN_NANOS,
    {
        assert(secs * NANOS_PER_SEC <= u64::MAX * NANOS_PER_SEC) by (nonlinear_arith)
            requires
                secs <= u64::MAX,
        ;
        Span { nanos: secs as u128 * NANOS_PER_SEC }
    }

    /// The whole milliseconds in this span.
    pub fn as_millis(&self) -> (m: u128)
        ensures
            m == self@ / NANOS_PER_MILLI as nat,
    {
        self.nanos / NANOS_PER_MILLI
    }
}

} // verus!
