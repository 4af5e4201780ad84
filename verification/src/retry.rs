//! Bounded retries with exponential backoff.

use vstd::prelude::*;

verus! {

/// How often a failed operation is tried again, and how long to wait before
/// each new try.
#[derive(Clone, Copy, Debug, PartialEq, Eq, Structural)]
pub struct RetryPolicy {
    /// The wait before the first retry, in milliseconds.
    pub base_delay_ms: u64,
    /// The longest wait before any retry, in milliseconds.
    pub max_delay_ms: u64,
    /// The number of retries after which the operation is given up.
    pub max_retries: u32,
}

/// The smaller of two numbers.
pub open spec fn at_most(x: nat, limit: nat) -> nat {
    if x <= limit {
        x
    } else {
        limit
    }
}

/// The wait before the retry that follows `failures` failures in a row: the
/// base delay, doubled with each failure after the first, and never more
/// than the longest wait.
pub open spec fn backoff_delay(policy: RetryPolicy, failures: nat) -> nat
    decreases failures,
{
    if failures <= 1 {
        at_most(policy.base_delay_ms as nat, policy.max_delay_ms as nat)
    } else {
        at_most(2 * backoff_delay(policy, (failures - 1) as nat), policy.max_delay_ms as nat)
    }
}

/// What to do after `failures` failures in a row: wait and try again, or
/// give up.
pub open spec fn retry_after(policy: RetryPolicy, failures: nat) -> Option<nat> {
    if failures <= policy.max_retries {
        Some(backoff_delay(policy, failures))
    } else {
        None
    }
}

impl RetryPolicy {
    /// The wait, in milliseconds, before the retry that follows `failures`
    /// failures in a row, or nothing where the retries are used up.
    pub fn next_delay(&self, failures: u32) -> (res: Option<u64>)
        ensures
            match res {
                Some(delay) => retry_after(*self, failures as nat) == Some(delay as nat),
                None => retry_after(*self, failures as nat) is None,
            },
    {
        if failures > self.max_retries {
            return None;
        }
        let limit = self.max_delay_ms;
        let mut delay: u64 = if self.base_delay_ms <= limit {
            self.base_delay_ms
        } else {
            limit
        };
        let mut counted: u32 = 1;
        while counted < failures
            invariant
                1 <= counted,
                counted <= failures || counted == 1,
                limit == self.max_delay_ms,
                delay <= limit,
                delay == backoff_delay(*self, counted as nat),
            decreases failures - counted,
        {
            delay = if delay <= limit / 2 && delay * 2 <= limit {
                delay * 2
            } else {
                limit
            };
            counted = counted + 1;
        }
        assert(backoff_delay(*self, 0) == backoff_delay(*self, 1));
        Some(delay)
    }
}

} // verus!
