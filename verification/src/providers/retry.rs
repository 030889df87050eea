//! When to try again, and after how long.

use std::time::Duration;

use vstd::arithmetic::power2::{lemma2_to64, lemma_pow2_unfold, pow2};
use vstd::prelude::*;

use crate::providers::error::ProviderError;
use crate::providers::error::{asked_wait, longest_nanos, nanos, worth_retrying};

verus! {

/// How often to try, and how long to wait in between.
#[derive(Debug, Clone, Copy, PartialEq, Eq)]
pub struct RetryPolicy {
    /// How often to try in all; one means once.
    pub max_attempts: u32,
    /// The wait before the first retry; it doubles with each further one.
    pub base_delay: Duration,
    /// The longest wait.
    pub max_delay: Duration,
}

impl Default for RetryPolicy {
    fn default() -> (p: RetryPolicy)
        ensures
            p.max_attempts == 4,
            nanos(p.base_delay) == 500_000_000,
            nanos(p.max_delay) == 30_000_000_000,
    {
        RetryPolicy {
            max_attempts: 4,
            base_delay: Duration::from_millis(500),
            max_delay: Duration::from_secs(30),
        }
    }
}

/// The wait in nanoseconds before retry `retry_index`: what the endpoint asked for, or else the
/// doubled base, and never more than the longest wait.
pub open spec fn wait_nanos(
    base: nat,
    longest: nat,
    retry_index: u32,
    retry_after: Option<nat>,
) -> nat {
    let wanted = match retry_after {
        Some(hint) => hint,
        None => base * pow2(retry_index as nat),
    };
    if wanted <= longest {
        wanted
    } else {
        longest
    }
}

/// The length of an optional duration.
pub open spec fn optional_nanos(d: Option<Duration>) -> Option<nat> {
    match d {
        Some(d) => Some(nanos(d)),
        None => None,
    }
}

/// What to do after a failed attempt.
#[derive(Debug, Clone, Copy, PartialEq, Eq)]
pub enum RetryStep {
    /// Return the error.
    GiveUp,
    /// Wait, then try again.
    Wait(Duration),
}

proof fn lemma_doubled(base: nat, i: nat)
    ensures
        base * pow2(i + 1) == 2 * (base * pow2(i)),
{
    lemma_pow2_unfold(i + 1);
    let p = pow2(i);
    assert(pow2(i + 1) == 2 * p);
    assert(base * (2 * p) == 2 * (base * p)) by (nonlinear_arith);
}

proof fn lemma_grows(base: nat, i: nat, k: nat)
    requires
        i <= k,
    ensures
        base * pow2(i) <= base * pow2(k),
    decreases k - i,
{
    if i < k {
        lemma_doubled(base, i);
        lemma_grows(base, i + 1, k);
        assert(base * pow2(i) >= 0) by (nonlinear_arith)
            requires
                base >= 0,
                pow2(i) >= 0,
        ;
    }
}

/// The shorter of two durations.
fn shorter(a: Duration, b: Duration) -> (r: Duration)
    ensures
        r == (if nanos(a) <= nanos(b) {
            a
        } else {
            b
        }),
{
    if a.as_nanos() <= b.as_nanos() {
        a
    } else {
        b
    }
}

impl RetryPolicy {
    /// The wait before retry `retry_index`, the first being number zero. What the endpoint asked
    /// for counts before the doubled base; neither exceeds the longest wait.
    #[must_use]
    pub fn delay_for(&self, retry_index: u32, retry_after: Option<Duration>) -> (d: Duration)
        ensures
            nanos(d) == wait_nanos(
                nanos(self.base_delay),
                nanos(self.max_delay),
                retry_index,
                optional_nanos(retry_after),
            ),
    {
        if let Some(hint) = retry_after {
            return shorter(hint, self.max_delay);
        }
        let ghost base = nanos(self.base_delay);
        let longest: u128 = self.max_delay.as_nanos();
        let mut d = self.base_delay;
        let mut i: u32 = 0;
        proof {
            lemma2_to64();
            assert(base * pow2(0) == base) by (nonlinear_arith)
                requires
                    pow2(0) == 1,
            ;
        }
        if d.as_nanos() == 0 {
            assert(base * pow2(retry_index as nat) == 0) by (nonlinear_arith)
                requires
                    base == 0,
            ;
            return d;
        }
        while i < retry_index && d.as_nanos() < longest
            invariant
                i <= retry_index,
                retry_after is None,
                base == nanos(self.base_delay),
                longest == nanos(self.max_delay),
                longest <= longest_nanos(),
                nanos(d) == base * pow2(i as nat),
            decreases retry_index - i,
        {
            proof {
                lemma_doubled(base, i as nat);
                lemma_grows(base, (i + 1) as nat, retry_index as nat);
            }
            match d.checked_mul(2) {
                Some(twice) => {
                    d = twice;
                },
                None => {
                    return self.max_delay;
                },
            }
            i += 1;
        }
        proof {
            lemma_grows(base, i as nat, retry_index as nat);
        }
        shorter(d, self.max_delay)
    }

    /// How often to try in all: at least once.
    pub open spec fn attempts(self) -> int {
        if self.max_attempts == 0 {
            1
        } else {
            self.max_attempts as int
        }
    }

    /// What to do after attempt `attempt` failed with `error`, the first being number zero.
    pub fn after_failure(&self, attempt: u32, error: &ProviderError) -> (step: RetryStep)
        ensures
            match step {
                RetryStep::GiveUp => !worth_retrying(error.deep_view()) || attempt + 1
                    >= self.attempts(),
                RetryStep::Wait(d) => {
                    &&& worth_retrying(error.deep_view())
                    &&& attempt + 1 < self.attempts()
                    &&& nanos(d) == wait_nanos(
                        nanos(self.base_delay),
                        nanos(self.max_delay),
                        attempt,
                        optional_nanos(asked_wait(error.deep_view())),
                    )
                },
            },
    {
        let attempts: u64 = if self.max_attempts == 0 {
            1
        } else {
            self.max_attempts as u64
        };
        if !error.is_retryable() || attempt as u64 + 1 >= attempts {
            return RetryStep::GiveUp;
        }
        RetryStep::Wait(self.delay_for(attempt, error.retry_after()))
    }
}

/// No wait exceeds the longest wait, whatever the endpoint asks for.
pub proof fn waits_are_capped(base: nat, longest: nat, retry_index: u32, hint: Option<nat>)
    ensures
        wait_nanos(base, longest, retry_index, hint) <= longest,
{
}

/// Until a wait is capped, each wait is twice the one before.
pub proof fn waits_double(base: nat, longest: nat, retry_index: u32)
    requires
        retry_index < u32::MAX,
        wait_nanos(base, longest, (retry_index + 1) as u32, None) < longest,
    ensures
        wait_nanos(base, longest, (retry_index + 1) as u32, None) == 2 * wait_nanos(
            base,
            longest,
            retry_index,
            None,
        ),
{
    lemma_doubled(base, retry_index as nat);
    lemma_grows(base, retry_index as nat, (retry_index + 1) as nat);
}

/// The first wait is the base; a wait that the endpoint asks for is granted whatever the attempt; no wait
/// is longer than the longest, and none is shorter than what is wanted unless that would be too long.
pub proof fn the_first_wait_is_the_base(base: nat, longest: nat, retry_index: u32, hint: nat)
    ensures
        wait_nanos(base, longest, 0, None) == (if base <= longest {
            base
        } else {
            longest
        }),
        wait_nanos(base, longest, retry_index, Some(hint)) == (if hint <= longest {
            hint
        } else {
            longest
        }),
{
    lemma2_to64();
}

/// Waits never shrink from one attempt to the next.
pub proof fn waits_never_shrink(base: nat, longest: nat, retry_index: u32)
    requires
        retry_index < u32::MAX,
    ensures
        wait_nanos(base, longest, retry_index, None) <= wait_nanos(
            base,
            longest,
            (retry_index + 1) as u32,
            None,
        ),
        wait_nanos(base, longest, (retry_index + 1) as u32, None) <= 2 * wait_nanos(
            base,
            longest,
            retry_index,
            None,
        ),
{
    lemma_pow2_unfold((retry_index + 1) as nat);
    let p = pow2(retry_index as nat);
    assert(base * (2 * p) == 2 * (base * p)) by (nonlinear_arith);
    assert(base * p >= 0) by (nonlinear_arith);
}

/// At least one attempt is made, and otherwise as many as the policy allows.
pub proof fn at_least_one_attempt_is_made(p: RetryPolicy)
    ensures
        p.attempts() >= 1,
        p.max_attempts >= 1 ==> p.attempts() == p.max_attempts,
{
}

} // verus!
