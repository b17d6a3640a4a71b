//! How long a server may stay silent while it owes an answer.

use crate::outside::nanos_of;
use std::time::Duration;
use vstd::prelude::*;

verus! {

/// The default, in seconds.
pub const DEFAULT_LIVENESS_SECS: u64 = 60;

/// The silence after which a server that owes an answer is taken for dead.
#[derive(Clone, Copy, Debug, PartialEq, Eq)]
pub struct LivenessTimeout(Duration);

impl LivenessTimeout {
    /// The time in nanoseconds.
    pub closed spec fn nanos(self) -> u128 {
        nanos_of(self.0)
    }

    /// The time.
    pub fn as_duration(&self) -> (duration: Duration)
        ensures
            nanos_of(duration) == self.nanos(),
    {
        self.0
    }
}

impl Default for LivenessTimeout {
    /// One minute.
    fn default() -> (timeout: LivenessTimeout)
        ensures
            timeout.nanos() == 60_000_000_000,
    {
        LivenessTimeout(Duration::from_secs(DEFAULT_LIVENESS_SECS))
    }
}

} // verus!
