//! Keeping to a provider's pace.
//!
//! A lane admits a minute's worth of requests at once and then refills evenly. What that comes to is
//! decided here; waiting for it is the caller's.

use vstd::prelude::*;

verus! {

/// A quota of `governor`.
#[verifier::external_type_specification]
#[verifier::external_body]
pub struct ExQuota(governor::Quota);

/// The requests that a quota admits at once: `governor::Quota::burst_size`.
pub uninterp spec fn burst_size(q: governor::Quota) -> u32;

/// The nanoseconds in which a quota refills by one request: `governor::Quota::replenish_interval`.
pub uninterp spec fn refill_nanos(q: governor::Quota) -> nat;

/// `governor::Quota::per_minute`: a quota of `rpm` requests in sixty seconds, all of which may come
/// at once, and which refills evenly; the interval is rounded down to whole nanoseconds.
#[verifier::external_body]
fn per_minute_quota(rpm: u32) -> (q: governor::Quota)
    requires
        rpm > 0,
    ensures
        burst_size(q) == rpm,
        refill_nanos(q) == 60_000_000_000nat / rpm as nat,
{
    governor::Quota::per_minute(std::num::NonZeroU32::new(rpm).unwrap())
}

/// What a provider allows.
#[derive(Debug, PartialEq)]
pub struct ProviderLimits {
    /// Where it is reached, where that is not the usual endpoint.
    pub endpoint: Option<String>,
    /// The requests per minute.
    pub rpm: u32,
    /// The tokens per minute.
    pub tpm: Option<u32>,
    /// The requests at the same time.
    pub max_in_flight: Option<u32>,
}

/// The pace of a lane.
#[derive(Debug)]
pub struct Pace {
    quota: governor::Quota,
    rpm: u32,
}

/// A pace that can be kept to: at least one request per minute.
pub open spec fn kept(rpm: u32) -> u32 {
    if rpm == 0 {
        1
    } else {
        rpm
    }
}

impl Pace {
    #[verifier::type_invariant]
    spec fn inv(&self) -> bool {
        self.rpm > 0 && burst_size(self.quota) == self.rpm && refill_nanos(self.quota)
            == 60_000_000_000nat / self.rpm as nat
    }

    /// The requests per minute.
    pub closed spec fn requests(&self) -> u32 {
        self.rpm
    }

    /// The pace of `rpm` requests per minute, at least one.
    #[must_use]
    pub fn per_minute(rpm: u32) -> (p: Pace)
        ensures
            p.requests() == kept(rpm),
    {
        let n: u32 = if rpm == 0 {
            1
        } else {
            rpm
        };
        Pace { quota: per_minute_quota(n), rpm: n }
    }

    /// The pace of a provider, or of `default_rpm` requests per minute where it is not known.
    #[must_use]
    pub fn from_limits(limits: Option<&ProviderLimits>, default_rpm: u32) -> (p: Pace)
        ensures
            p.requests() == kept(
                match limits {
                    Some(l) => l.rpm,
                    None => default_rpm,
                },
            ),
    {
        match limits {
            Some(l) => Pace::per_minute(l.rpm),
            None => Pace::per_minute(default_rpm),
        }
    }

    /// The requests per minute.
    #[must_use]
    pub fn rpm(&self) -> (r: u32)
        ensures
            r == self.requests(),
            r > 0,
    {
        proof {
            use_type_invariant(self);
        }
        self.rpm
    }

    /// The quota that a limiter is made with: a minute's worth at once, refilled evenly.
    #[must_use]
    pub fn quota(self) -> (q: governor::Quota)
        ensures
            burst_size(q) == self.requests(),
            refill_nanos(q) == 60_000_000_000nat / self.requests() as nat,
    {
        proof {
            use_type_invariant(&self);
        }
        self.quota
    }
}

/// A pace is kept as it is asked for; none at all is one request a minute.
pub proof fn a_pace_is_kept_as_asked(rpm: u32)
    ensures
        kept(rpm) >= 1,
        rpm > 0 ==> kept(rpm) == rpm,
{
}

} // verus!
