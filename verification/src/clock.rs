//! The clock against which a search is timed. Nothing is known of what it
//! shows: a search states what holds whatever the clock says.
use vstd::prelude::*;
use std::time::{Duration, Instant};

verus! {

/// A reading of std's monotonic clock.
#[verifier::external_type_specification]
#[verifier::external_body]
pub struct ExInstant(Instant);

/// `Instant::now`: the present reading.
pub assume_specification[ Instant::now ]() -> (start: Instant);

/// `Instant::elapsed`: the time since `start` was read.
pub assume_specification[ Instant::elapsed ](start: &Instant) -> (passed: Duration);

/// `Duration::as_millis`: a duration in whole milliseconds.
pub assume_specification[ Duration::as_millis ](passed: &Duration) -> (millis: u128);

} // verus!
