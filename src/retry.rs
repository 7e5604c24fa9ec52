use vstd::arithmetic::power2::{pow2, lemma_pow2_unfold, lemma_pow2_pos};
use vstd::prelude::*;

use crate::record::{JobError, JobRecordView, JobStatus};
use crate::store::failed_record;

verus! {

/// Exponential backoff with a cap: `min(max_delay, base * 2^attempt)`.
pub open spec fn backoff_delay(base: nat, max_delay: nat, attempt: nat) -> nat {
    let raw = base * pow2(attempt);
    if raw < max_delay {
        raw
    } else {
        max_delay
    }
}

/// What the policy says about a failed attempt.
#[derive(Clone, Copy, Debug, PartialEq, Eq, Structural)]
pub enum Decision {
    /// Reschedule the job after this many seconds.
    RetryAfter(u64),
    /// Stop retrying; the row becomes `Failed`.
    PermanentFailure,
}

/// Tunable retry policy: exponential backoff with a ceiling on the delay and on
/// the number of attempts.
#[derive(Clone, Copy, Debug, PartialEq, Eq, Structural)]
pub struct RetryPolicy {
    pub base_delay: u64,
    pub max_delay: u64,
    pub max_attempts: u32,
}

/// The decision for a job that has now failed `failures` times in total
/// (the failure just observed included; zero is taken as one), with an error
/// that is or is not permanent by its kind.
pub open spec fn decide_spec(policy: RetryPolicy, failures: nat, permanent_kind: bool) -> Decision {
    if permanent_kind || failures >= policy.max_attempts {
        Decision::PermanentFailure
    } else {
        Decision::RetryAfter(
            backoff_delay(
                policy.base_delay as nat,
                policy.max_delay as nat,
                if failures == 0 {
                    0
                } else {
                    (failures - 1) as nat
                },
            ) as u64,
        )
    }
}

/// Each failure raises the count by exactly one, and a failure of a kind
/// that may be retried makes the row permanently failed exactly when the new
/// count reaches the policy's maximum.
pub proof fn lemma_retry_monotone(
    policy: RetryPolicy,
    r: JobRecordView,
    error: JobError,
    now: u64,
)
    requires
        r.retry_count < u32::MAX,
        !error.is_permanent_kind(),
    ensures
        ({
            let d = decide_spec(policy, (r.retry_count + 1) as nat, false);
            let n = failed_record(r, error, d, now);
            &&& n.retry_count == r.retry_count + 1
            &&& n.retry_count > r.retry_count
            &&& (n.status == JobStatus::Failed <==> n.retry_count >= policy.max_attempts)
        }),
{
}

/// After failed attempt `k` (the row had failed `k` times before), when the
/// policy reschedules, the row's next retry is at
/// `now + min(max_delay, base * 2^k)`.
pub proof fn lemma_backoff(policy: RetryPolicy, r: JobRecordView, error: JobError, now: u64)
    requires
        (r.retry_count + 1) < policy.max_attempts,
        !error.is_permanent_kind(),
        now + backoff_delay(policy.base_delay as nat, policy.max_delay as nat, r.retry_count as nat)
            <= u64::MAX,
    ensures
        ({
            let d = decide_spec(policy, (r.retry_count + 1) as nat, false);
            let n = failed_record(r, error, d, now);
            n.next_retry_at == Some(
                (now + backoff_delay(
                    policy.base_delay as nat,
                    policy.max_delay as nat,
                    r.retry_count as nat,
                )) as u64,
            )
        }),
{
    let b = backoff_delay(policy.base_delay as nat, policy.max_delay as nat, r.retry_count as nat);
    assert(b <= policy.max_delay);
}

impl RetryPolicy {
    pub fn new(base_delay: u64, max_delay: u64, max_attempts: u32) -> (r: RetryPolicy)
        ensures
            r.base_delay == base_delay,
            r.max_delay == max_delay,
            r.max_attempts == max_attempts,
    {
        RetryPolicy { base_delay, max_delay, max_attempts }
    }

    /// The delay before the retry that follows failed attempt number `attempt`
    /// (counting from zero).
    pub fn delay_for(&self, attempt: u32) -> (r: u64)
        ensures
            r as nat == backoff_delay(self.base_delay as nat, self.max_delay as nat, attempt as nat),
    {
        let base = self.base_delay;
        let max = self.max_delay;
        let mut d: u64 = if base < max { base } else { max };
        let mut i: u32 = 0;
        proof {
            assert(pow2(0) == 1) by {
                vstd::arithmetic::power2::lemma_pow2(0);
                vstd::arithmetic::power::lemma_pow0(2);
            }
        }
        while i < attempt
            invariant
                i <= attempt,
                base == self.base_delay,
                max == self.max_delay,
                d as nat == backoff_delay(base as nat, max as nat, i as nat),
            decreases attempt - i,
        {
            proof {
                lemma_pow2_unfold((i + 1) as nat);
                lemma_pow2_pos(i as nat);
                let p = pow2(i as nat);
                assert(base * pow2((i + 1) as nat) == 2 * (base * p)) by (nonlinear_arith)
                    requires
                        pow2((i + 1) as nat) == 2 * p,
                ;
            }
            if d >= max {
                proof {
                    let p = pow2(i as nat);
                    assert(base * p <= 2 * (base * p)) by (nonlinear_arith);
                }
            } else if d > max / 2 {
                d = max;
            } else {
                d = d * 2;
            }
            i = i + 1;
        }
        d
    }

    /// Decide what to do with a job that has now failed `failures` times in
    /// total. Errors that no retry can mend fail permanently at once.
    pub fn decide(&self, failures: u32, error: &JobError) -> (r: Decision)
        ensures
            r == decide_spec(*self, failures as nat, error.is_permanent_kind()),
    {
        if error.is_permanent() || failures >= self.max_attempts {
            Decision::PermanentFailure
        } else {
            let attempt: u32 = if failures == 0 {
                0
            } else {
                failures - 1
            };
            Decision::RetryAfter(self.delay_for(attempt))
        }
    }
}

} // verus!
