//! Decisions around the ledger: when a failed submission is tried again, and
//! how long to wait before it is.
//!
//! The library submits nothing itself. Its host submits a transition, tells
//! `RetryPolicy::next_step` how that failed, and does what it answers.

use crate::did::SubmitError;
use vstd::prelude::*;

verus! {

/// How often a failed submission is tried again, and how long to wait first.
#[derive(Clone, Copy, Debug, PartialEq, Eq, Structural)]
pub struct RetryPolicy {
    /// The number of retries after the first attempt.
    pub max_retries: u32,
    /// The wait before the first retry, in milliseconds; each later wait is
    /// twice the one before.
    pub base_delay_ms: u64,
}

/// What to do after a submission has failed.
#[derive(Clone, Copy, Debug, PartialEq, Eq, Structural)]
pub enum NextStep {
    /// Wait this many milliseconds, then submit again.
    RetryAfter(u64),
    /// Stop: the transition is not anchored.
    GiveUp,
}

/// `base` doubled `times` times.
pub open spec fn doubled(base: int, times: nat) -> int
    decreases times,
{
    if times == 0 {
        base
    } else {
        2 * doubled(base, (times - 1) as nat)
    }
}

/// The wait before retry number `retry`, counted from 0: the base delay
/// doubled `retry` times, but no more than fits in 64 bits.
pub open spec fn backoff_delay(base_delay_ms: u64, retry: nat) -> int {
    if doubled(base_delay_ms as int, retry) > u64::MAX {
        u64::MAX as int
    } else {
        doubled(base_delay_ms as int, retry)
    }
}

/// What to do after `failures` submissions in a row have failed, the last of
/// them with `error`: a transient failure is retried as long as retries are
/// left, a permanent one never.
pub open spec fn decide(policy: RetryPolicy, failures: u32, error: SubmitError) -> NextStep {
    if error == SubmitError::Transient && 1 <= failures <= policy.max_retries {
        NextStep::RetryAfter(backoff_delay(policy.base_delay_ms, (failures - 1) as nat) as u64)
    } else {
        NextStep::GiveUp
    }
}

/// Doubling never shrinks a wait.
pub proof fn lemma_doubled_grows(base: int, times: nat)
    requires
        0 <= base,
    ensures
        base <= doubled(base, times),
        doubled(base, times) <= doubled(base, times + 1),
    decreases times,
{
    if times > 0 {
        lemma_doubled_grows(base, (times - 1) as nat);
    }
}

/// Retries are bounded: once more submissions have failed than the policy has
/// retries, the answer is to give up, whatever the failure was.
pub proof fn lemma_retries_are_bounded(policy: RetryPolicy, failures: u32, error: SubmitError)
    requires
        failures > policy.max_retries,
    ensures
        decide(policy, failures, error) == NextStep::GiveUp,
{
}

/// A permanent failure is never retried.
pub proof fn lemma_permanent_is_final(policy: RetryPolicy, failures: u32)
    ensures
        decide(policy, failures, SubmitError::Permanent) == NextStep::GiveUp,
{
}

/// The waits back off: each retry waits at least as long as the one before.
pub proof fn lemma_backoff_is_monotonic(base_delay_ms: u64, retry: nat)
    ensures
        base_delay_ms <= backoff_delay(base_delay_ms, retry) <= backoff_delay(
            base_delay_ms,
            retry + 1,
        ) <= u64::MAX,
{
    lemma_doubled_grows(base_delay_ms as int, retry);
}

impl RetryPolicy {
    /// The wait before retry number `retry`, counted from 0.
    pub fn delay_before(&self, retry: u32) -> (delay: u64)
        ensures
            delay == backoff_delay(self.base_delay_ms, retry as nat),
    {
        let mut delay = self.base_delay_ms;
        let mut done: u32 = 0;
        while done < retry && 0 < delay && delay < u64::MAX
            invariant
                done <= retry,
                delay == backoff_delay(self.base_delay_ms, done as nat),
            decreases retry - done,
        {
            proof {
                lemma_doubled_grows(self.base_delay_ms as int, done as nat);
            }
            delay = match delay.checked_mul(2) {
                Some(twice) => twice,
                None => u64::MAX,
            };
            done += 1;
        }
        proof {
            lemma_delay_settles(self.base_delay_ms, done as nat, retry as nat);
        }
        delay
    }

    /// What to do after `failures` submissions in a row have failed, the last
    /// of them with `error`.
    pub fn next_step(&self, failures: u32, error: SubmitError) -> (step: NextStep)
        ensures
            step == decide(*self, failures, error),
    {
        match error {
            SubmitError::Permanent => NextStep::GiveUp,
            SubmitError::Transient => {
                if 1 <= failures && failures <= self.max_retries {
                    NextStep::RetryAfter(self.delay_before(failures - 1))
                } else {
                    NextStep::GiveUp
                }
            },
        }
    }
}

/// A wait of 0 stays 0, and a wait that has reached the largest value stays there.
proof fn lemma_delay_settles(base_delay_ms: u64, from: nat, to: nat)
    requires
        from <= to,
        backoff_delay(base_delay_ms, from) == 0 || backoff_delay(base_delay_ms, from) == u64::MAX
            || from == to,
    ensures
        backoff_delay(base_delay_ms, to) == backoff_delay(base_delay_ms, from),
    decreases to - from,
{
    if from < to {
        lemma_delay_settles(base_delay_ms, from, (to - 1) as nat);
        lemma_doubled_grows(base_delay_ms as int, (to - 1) as nat);
        lemma_doubled_grows(base_delay_ms as int, from);
        if backoff_delay(base_delay_ms, from) == 0 {
            lemma_zero_stays(to);
            lemma_zero_stays(from);
        }
    }
}

/// Zero doubled is zero.
proof fn lemma_zero_stays(times: nat)
    ensures
        doubled(0, times) == 0,
    decreases times,
{
    if times > 0 {
        lemma_zero_stays((times - 1) as nat);
    }
}

} // verus!
