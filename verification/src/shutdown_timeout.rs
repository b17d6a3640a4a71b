//! The time that the whole pool is given to shut down.

use crate::error::{ErrorKind, PoolError};
use crate::outside::{duration_text, nanos_of, shown_span};
use std::time::Duration;
use vstd::prelude::*;

verus! {

const DEFAULT_SECS: u64 = 10;

const MIN_NANOS: u128 = 5_000_000_000;

const MAX_NANOS: u128 = 15_000_000_000;

/// The ceiling for shutting down all connections: at least 5 and at most 15
/// seconds.
#[derive(Clone, Copy, Debug, PartialEq, Eq)]
pub struct GlobalShutdownTimeout(Duration);

impl GlobalShutdownTimeout {
    /// The time in nanoseconds.
    pub closed spec fn nanos(self) -> u128 {
        nanos_of(self.0)
    }

    /// The time lies in the permitted range.
    #[verifier::type_invariant]
    spec fn in_range(self) -> bool {
        MIN_NANOS <= nanos_of(self.0) <= MAX_NANOS
    }

    /// Takes a time of 5 seconds or more and of 15 seconds or less.
    pub fn new(duration: Duration) -> (timeout: Result<GlobalShutdownTimeout, PoolError>)
        ensures
            match timeout {
                Ok(timeout) => 5_000_000_000 <= nanos_of(duration) <= 15_000_000_000
                    && timeout.nanos() == nanos_of(duration),
                Err(error) => {
                    ||| nanos_of(duration) < 5_000_000_000 && error.says(
                        ErrorKind::InvalidInput,
                        "Global shutdown timeout must be at least 5s, got "@ + shown_span(
                            nanos_of(duration),
                        ),
                    )
                    ||| nanos_of(duration) > 15_000_000_000 && error.says(
                        ErrorKind::InvalidInput,
                        "Global shutdown timeout must be at most 15s, got "@ + shown_span(
                            nanos_of(duration),
                        ),
                    )
                },
            },
    {
        let nanos = duration.as_nanos();
        if nanos < MIN_NANOS {
            let message = "Global shutdown timeout must be at least 5s, got ".to_owned();
            let message = message.concat(duration_text(duration).as_str());
            return Err(PoolError::new(ErrorKind::InvalidInput, message));
        }
        if nanos > MAX_NANOS {
            let message = "Global shutdown timeout must be at most 15s, got ".to_owned();
            let message = message.concat(duration_text(duration).as_str());
            return Err(PoolError::new(ErrorKind::InvalidInput, message));
        }
        Ok(GlobalShutdownTimeout(duration))
    }

    /// The time.
    pub fn as_duration(&self) -> (duration: Duration)
        ensures
            nanos_of(duration) == self.nanos(),
            5_000_000_000 <= nanos_of(duration) <= 15_000_000_000,
    {
        proof {
            use_type_invariant(self);
        }
        self.0
    }
}

impl Default for GlobalShutdownTimeout {
    /// Ten seconds.
    fn default() -> (timeout: GlobalShutdownTimeout)
        ensures
            timeout.nanos() == 10_000_000_000,
    {
        GlobalShutdownTimeout(Duration::from_secs(DEFAULT_SECS))
    }
}

} // verus!
