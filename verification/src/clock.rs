//! The node's clock: milliseconds since it was started.

use tokio::time::Instant;
use vstd::prelude::*;

verus! {

#[verifier::external_type_specification]
#[verifier::external_body]
pub struct ExInstant(tokio::time::Instant);

/// A monotonic clock that counts milliseconds from the moment it was started.
pub struct Clock {
    origin: Instant,
}

/// The present moment, from `tokio::time::Instant::now`. Nothing is claimed
/// of it.
#[verifier::external_body]
fn instant_now() -> Instant {
    Instant::now()
}

/// The whole milliseconds from `earlier` to `later`, from
/// `tokio::time::Instant::duration_since`, which gives zero where `earlier`
/// is the later of the two. Nothing is claimed of the number.
#[verifier::external_body]
fn millis_between(later: &Instant, earlier: &Instant) -> u64 {
    later.duration_since(*earlier).as_millis() as u64
}

impl Clock {
    /// A clock that reads zero now.
    pub fn start() -> Clock {
        Clock { origin: instant_now() }
    }

    /// What the clock reads now: the time since it was started, cut to
    /// whole milliseconds. The difference of two readings can therefore be
    /// one millisecond more than the whole milliseconds between them.
    pub fn now_ms(&self) -> u64 {
        let now = instant_now();
        millis_between(&now, &self.origin)
    }
}

} // verus!
