use crate::error::RateLimitTimeoutExceededError;
use vstd::prelude::*;

verus! {

/// Seconds between two tries to take a token from an empty bucket.
pub const TOKEN_POLL_SECS: u64 = 1;

/// The first wait after a "too many requests" answer, in seconds.
pub const BACKOFF_START_SECS: u64 = 5;

/// How much longer each further wait is, in seconds.
pub const BACKOFF_STEP_SECS: u64 = 5;

/// The most that one request may wait in all, in seconds.
pub const BACKOFF_CEILING_SECS: u64 = 300;

/// The waiting done so far for one request, and the next wait.
pub ghost struct BackoffModel {
    pub waited: nat,
    pub next_delay: nat,
}

/// The waits of one request that the service answers "too many requests":
/// 5 seconds, then 5 more each time, for as long as the total stays within 300.
pub struct RateLimitBackoff {
    waited: u64,
    next_delay: u64,
}

impl View for RateLimitBackoff {
    type V = BackoffModel;

    closed spec fn view(&self) -> BackoffModel {
        BackoffModel { waited: self.waited as nat, next_delay: self.next_delay as nat }
    }
}

/// The wait after one more "too many requests" answer and the state after it, or
/// none where that wait would take the total past the ceiling.
pub open spec fn backoff_step(b: BackoffModel) -> Option<(nat, BackoffModel)> {
    if b.waited + b.next_delay > BACKOFF_CEILING_SECS {
        None
    } else {
        Some(
            (
                b.next_delay,
                BackoffModel {
                    waited: b.waited + b.next_delay,
                    next_delay: b.next_delay + BACKOFF_STEP_SECS as nat,
                },
            ),
        )
    }
}

impl RateLimitBackoff {
    #[verifier::type_invariant]
    spec fn bounded(&self) -> bool {
        &&& self.waited <= BACKOFF_CEILING_SECS
        &&& self.next_delay <= BACKOFF_CEILING_SECS + BACKOFF_STEP_SECS
    }

    pub fn new() -> (b: Self)
        ensures
            b@ == (BackoffModel { waited: 0, next_delay: BACKOFF_START_SECS as nat }),
    {
        RateLimitBackoff { waited: 0, next_delay: BACKOFF_START_SECS }
    }

    /// Seconds waited so far.
    pub fn waited(&self) -> (r: u64)
        ensures
            r == self@.waited,
    {
        self.waited
    }

    /// Called when the service answers "too many requests": the seconds to wait
    /// before trying again, or the error where that wait would take the total past
    /// the ceiling. The total waited never exceeds the ceiling.
    pub fn on_rate_limited(&mut self) -> (r: Result<u64, RateLimitTimeoutExceededError>)
        ensures
            match backoff_step(old(self)@) {
                Some((d, b)) => r == Ok::<u64, RateLimitTimeoutExceededError>(d as u64) && final(self)@ == b,
                None => r is Err && final(self)@ == old(self)@,
            },
            final(self)@.waited <= BACKOFF_CEILING_SECS,
    {
        proof {
            use_type_invariant(&*self);
        }
        if self.next_delay > BACKOFF_CEILING_SECS - self.waited {
            Err(RateLimitTimeoutExceededError)
        } else {
            let d = self.next_delay;
            self.waited = self.waited + d;
            self.next_delay = d + BACKOFF_STEP_SECS;
            Ok(d)
        }
    }
}

} // verus!
