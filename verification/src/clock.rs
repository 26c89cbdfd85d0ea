//! The monotonic clock of `std::time`, as far as a run bounded by time
//! needs it. Verus takes the declarations of this file on trust.

use std::time::{Duration, Instant};
use vstd::prelude::*;

verus! {

/// `std::time::Instant`, a reading of the monotonic clock. Nothing is
/// claimed of what it holds.
#[verifier::external_type_specification]
#[verifier::external_body]
pub struct ExInstant(Instant);

/// `Instant::now` reads the clock. Nothing is claimed of the reading.
pub assume_specification[ Instant::now ]() -> (now: Instant)
;

/// `Instant::elapsed` gives the time since the reading was taken. Nothing
/// is claimed of it: it differs from call to call.
pub assume_specification[ Instant::elapsed ](start: &Instant) -> (elapsed: Duration)
;

/// `Duration::as_nanos` gives a duration as a whole number of nanoseconds.
/// The library only holds that number against the time elapsed, of which
/// nothing is known, so nothing is claimed of it either.
pub assume_specification[ Duration::as_nanos ](duration: &Duration) -> (nanos: u128)
;

} // verus!
