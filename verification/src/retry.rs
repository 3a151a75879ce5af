//! When to repeat an exchange with a provider.
//!
//! Only a transport failure is worth another attempt: a provider that
//! answered has spoken, whatever its status. The attempts are bounded and
//! the waits between them double.

use crate::provider::ProviderReply;
use vstd::prelude::*;

verus! {

/// How often an exchange is attempted and how long each wait is.
#[derive(Debug, Clone, Copy, PartialEq, Eq, Structural)]
pub struct RetryPolicy {
    /// The most attempts that one exchange gets, the first one included.
    pub max_attempts: u32,
    /// The wait after the first failure, in milliseconds.
    pub base_delay: u64,
    /// How long one attempt may take, in milliseconds.
    pub timeout: u64,
}

/// The wait after the given number of failures: the base delay after the
/// first, and twice the previous wait after each further one.
pub open spec fn backoff_delay(base: nat, failures: nat) -> nat
    decreases failures,
{
    if failures <= 1 {
        base
    } else {
        2 * backoff_delay(base, (failures - 1) as nat)
    }
}

/// `delay`, or the longest wait that fits where it is longer.
pub open spec fn capped(delay: nat) -> nat {
    if delay > u64::MAX {
        u64::MAX as nat
    } else {
        delay
    }
}

impl RetryPolicy {
    /// What follows an attempt: `Some(wait)` to wait that many milliseconds
    /// and try again, `None` to stop with `reply` as the outcome.
    /// `attempts` counts the attempts made so far, the one that ended in
    /// `reply` included.
    pub fn next_delay<T>(&self, attempts: u32, reply: &ProviderReply<T>) -> (delay: Option<u64>)
        ensures
            delay is Some <==> *reply is Unreachable && attempts < self.max_attempts,
            delay is Some ==> delay->0 == capped(
                backoff_delay(self.base_delay as nat, attempts as nat),
            ),
    {
        match reply {
            ProviderReply::Answered { .. } => None,
            ProviderReply::Unreachable => {
                if attempts >= self.max_attempts {
                    return None;
                }
                let mut wait: u64 = self.base_delay;
                let mut failures: u32 = 1;
                while failures < attempts
                    invariant
                        1 <= failures,
                        failures <= attempts || (attempts == 0 && failures == 1),
                        wait == capped(backoff_delay(self.base_delay as nat, failures as nat)),
                    decreases attempts - failures,
                {
                    wait = if wait > u64::MAX / 2 {
                        u64::MAX
                    } else {
                        2 * wait
                    };
                    failures = failures + 1;
                }
                Some(wait)
            },
        }
    }
}

} // verus!
