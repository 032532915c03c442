//! The clock a search is timed by, and the flag that asks it to stop.

use std::sync::atomic::{AtomicBool, Ordering};
use std::sync::Arc;
use std::time::Instant;
use vstd::prelude::*;

use crate::span::{Span, MAX_SPAN_NANOS};

verus! {

/// A moment of the monotonic clock: `std::time::Instant`, opaque here.
#[verifier::external_type_specification]
#[verifier::external_body]
pub struct ExInstant(Instant);

/// `Instant::now`: the present moment (what it is depends on when it is asked).
#[verifier::external_body]
pub fn now() -> Instant {
    Instant::now()
}

/// `Instant::elapsed`: the time since `start`, in nanoseconds. How much time has passed depends
/// on when it is asked; it is always a span that a `Duration` holds.
#[verifier::external_body]
pub fn elapsed_since(start: &Instant) -> (span: Span)
    ensures
        span@ <= MAX_SPAN_NANOS,
{
    Span { nanos: start.elapsed().as_nanos() }
}

/// A fresh flag, not yet raised.
pub fn new_flag() -> Arc<AtomicBool> {
    Arc::new(AtomicBool::new(false))
}

/// Whether the flag has been raised (by another thread, at any time).
pub fn is_raised(flag: &Arc<AtomicBool>) -> bool {
    flag.load(Ordering::Relaxed)
}

/// Raises the flag.
pub fn raise(flag: &Arc<AtomicBool>) {
    flag.store(true, Ordering::Relaxed)
}

} // verus!
