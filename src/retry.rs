//! Bounded retries with exponential backoff, as explicit state.

use vstd::prelude::*;

verus! {

/// How often, and after which delays, a failed operation is tried again.
#[derive(Clone, Copy, Debug, PartialEq, Eq, Structural)]
pub struct RetryPolicy {
    /// Retries allowed after the first failure; the next failure gives up.
    pub max_retries: u32,
    /// Delay before the first retry, in milliseconds.
    pub initial_delay_ms: u64,
    /// No delay exceeds this, in milliseconds.
    pub max_delay_ms: u64,
}

/// What to do after a failure.
#[derive(Clone, Copy, Debug, PartialEq, Eq, Structural)]
pub enum RetryDecision {
    /// Try again once `delay_ms` milliseconds have passed.
    RetryAfter { delay_ms: u64 },
    /// Retries are exhausted: the failure is fatal.
    GiveUp,
}

/// The smaller of two delays.
pub open spec fn min_delay(a: int, b: int) -> int {
    if a <= b {
        a
    } else {
        b
    }
}

/// Retries made so far and the delay before the next one.
#[derive(Clone, Copy, Debug, PartialEq, Eq, Structural)]
pub struct RetryState {
    pub policy: RetryPolicy,
    pub retries: u32,
    pub next_delay_ms: u64,
}

impl RetryState {
    /// The delay never exceeds the policy's bound.
    pub open spec fn wf(&self) -> bool {
        self.next_delay_ms <= self.policy.max_delay_ms
    }

    /// No failure seen yet.
    pub fn new(policy: RetryPolicy) -> (s: Self)
        ensures
            s.wf(),
            s.policy == policy,
            s.retries == 0,
            s.next_delay_ms == min_delay(policy.initial_delay_ms as int, policy.max_delay_ms as int),
    {
        let d = if policy.initial_delay_ms <= policy.max_delay_ms {
            policy.initial_delay_ms
        } else {
            policy.max_delay_ms
        };
        RetryState { policy, retries: 0, next_delay_ms: d }
    }

    /// Records a failure and decides whether to retry: while retries remain,
    /// the current delay is used and the next one doubles, up to the bound.
    pub fn on_failure(&mut self) -> (d: RetryDecision)
        requires
            old(self).wf(),
        ensures
            final(self).wf(),
            final(self).policy == old(self).policy,
            old(self).retries >= old(self).policy.max_retries ==> d == RetryDecision::GiveUp && *final(self) == *old(self),
            old(self).retries < old(self).policy.max_retries ==> {
                &&& d == (RetryDecision::RetryAfter { delay_ms: old(self).next_delay_ms })
                &&& final(self).retries == old(self).retries + 1
                &&& final(self).next_delay_ms == min_delay(
                    2 * old(self).next_delay_ms,
                    old(self).policy.max_delay_ms as int,
                )
            },
    {
        if self.retries >= self.policy.max_retries {
            return RetryDecision::GiveUp;
        }
        let delay = self.next_delay_ms;
        let half_cap = self.policy.max_delay_ms / 2;
        let next = if delay <= half_cap {
            2 * delay
        } else {
            self.policy.max_delay_ms
        };
        self.retries = self.retries + 1;
        self.next_delay_ms = next;
        RetryDecision::RetryAfter { delay_ms: delay }
    }

    /// Records a success: the next failure starts over from the first delay.
    pub fn on_success(&mut self)
        requires
            old(self).wf(),
        ensures
            final(self).wf(),
            *final(self) == RetryState::spec_new(old(self).policy),
    {
        *self = RetryState::new(self.policy);
    }

    /// The state `new` gives.
    pub open spec fn spec_new(policy: RetryPolicy) -> RetryState {
        RetryState {
            policy,
            retries: 0,
            next_delay_ms: min_delay(policy.initial_delay_ms as int, policy.max_delay_ms as int) as u64,
        }
    }
}

} // verus!
