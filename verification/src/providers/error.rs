//! What can go wrong with a model endpoint.

use std::time::Duration;

use vstd::prelude::*;

use crate::text::{decimal, decimal_text, joined};

verus! {

/// The length of a duration in nanoseconds, as told by `Duration::as_nanos`.
pub uninterp spec fn nanos(d: Duration) -> nat;

/// The longest duration in nanoseconds.
pub open spec fn longest_nanos() -> nat {
    (u64::MAX as nat) * 1_000_000_000 + 999_999_999
}

/// `Duration::as_nanos`: the length in nanoseconds.
pub assume_specification[ Duration::as_nanos ](d: &Duration) -> (n: u128)
    ensures
        n == nanos(*d),
        n <= longest_nanos(),
;

/// `Duration::as_secs`: the whole seconds.
pub assume_specification[ Duration::as_secs ](d: &Duration) -> (n: u64)
    ensures
        n == nanos(*d) / 1_000_000_000,
;

/// `Duration::from_secs`: a length in seconds.
pub assume_specification[ Duration::from_secs ](secs: u64) -> (d: Duration)
    ensures
        nanos(d) == secs as nat * 1_000_000_000,
;

/// `Duration::from_millis`: a length in milliseconds.
pub assume_specification[ Duration::from_millis ](millis: u64) -> (d: Duration)
    ensures
        nanos(d) == millis as nat * 1_000_000,
;

/// `Duration::checked_mul`: a multiple, unless it is longer than any duration.
pub assume_specification[ Duration::checked_mul ](d: Duration, factor: u32) -> (r: Option<Duration>)
    ensures
        match r {
            Some(p) => nanos(p) == nanos(d) * factor as nat,
            None => nanos(d) * factor as nat > longest_nanos(),
        },
;

/// What can go wrong with a model endpoint. No variant holds a secret.
#[derive(Debug, Clone, PartialEq)]
#[non_exhaustive]
pub enum ProviderError {
    /// The environment variable that should hold the key is not set; its name, never a value.
    MissingApiKey(String),
    /// The client or a request could not be built.
    Config(String),
    /// The connection failed.
    Transport(String),
    /// The endpoint answered with an error status.
    Status {
        /// The status.
        status: u16,
        /// Whether trying again may help.
        retryable: bool,
        /// The beginning of the answer.
        body: Option<String>,
    },
    /// The endpoint asked to slow down.
    RateLimited {
        /// For how long.
        retry_after: Option<Duration>,
    },
    /// The answer broke off.
    StreamReset(String),
    /// The answer could not be read.
    Decode(String),
}

/// What an error is, as mathematics.
#[verifier::ext_equal]
pub enum ProviderErrorView {
    MissingApiKey(Seq<char>),
    Config(Seq<char>),
    Transport(Seq<char>),
    Status { status: u16, retryable: bool, body: Option<Seq<char>> },
    RateLimited { retry_after: Option<Duration> },
    StreamReset(Seq<char>),
    Decode(Seq<char>),
}

impl DeepView for ProviderError {
    type V = ProviderErrorView;

    open spec fn deep_view(&self) -> ProviderErrorView {
        match self {
            ProviderError::MissingApiKey(s) => ProviderErrorView::MissingApiKey(s@),
            ProviderError::Config(s) => ProviderErrorView::Config(s@),
            ProviderError::Transport(s) => ProviderErrorView::Transport(s@),
            ProviderError::Status { status, retryable, body } => ProviderErrorView::Status {
                status: *status,
                retryable: *retryable,
                body: body.deep_view(),
            },
            ProviderError::RateLimited { retry_after } => ProviderErrorView::RateLimited {
                retry_after: *retry_after,
            },
            ProviderError::StreamReset(s) => ProviderErrorView::StreamReset(s@),
            ProviderError::Decode(s) => ProviderErrorView::Decode(s@),
        }
    }
}

/// Whether trying again may help: after a broken connection, a broken answer, a demand to slow
/// down, and a status that says so.
pub open spec fn worth_retrying(e: ProviderErrorView) -> bool {
    match e {
        ProviderErrorView::Transport(_) => true,
        ProviderErrorView::RateLimited { .. } => true,
        ProviderErrorView::StreamReset(_) => true,
        ProviderErrorView::Status { retryable, .. } => retryable,
        _ => false,
    }
}

/// How long the endpoint asked to wait.
pub open spec fn asked_wait(e: ProviderErrorView) -> Option<Duration> {
    match e {
        ProviderErrorView::RateLimited { retry_after } => retry_after,
        _ => None,
    }
}

/// The error that a status stands for: a demand to slow down has its own, a timeout of the request
/// and a failure of the server may be tried again, nothing else may.
pub open spec fn status_error(status: u16, body: Option<Seq<char>>) -> ProviderErrorView {
    if status == 429 {
        ProviderErrorView::RateLimited { retry_after: None }
    } else {
        ProviderErrorView::Status {
            status,
            retryable: status == 408 || 500 <= status < 600,
            body,
        }
    }
}

/// The error of a request that failed on its way: what its status says, where it got as far as one.
pub open spec fn transport_error(status: Option<u16>, text: Seq<char>) -> ProviderErrorView {
    match status {
        Some(code) => status_error(code, Some(text)),
        None => ProviderErrorView::Transport(text),
    }
}

/// The message of an error.
pub open spec fn provider_message(e: ProviderErrorView) -> Seq<char> {
    match e {
        ProviderErrorView::MissingApiKey(s) => "missing API key: environment variable `"@ + s
            + "` is not set"@,
        ProviderErrorView::Config(s) => "provider configuration error: "@ + s,
        ProviderErrorView::Transport(s) => "transport error: "@ + s,
        ProviderErrorView::Status { status, body, .. } => "http status "@ + decimal(status as nat)
            + (match body {
            Some(b) => ": "@ + b,
            None => Seq::empty(),
        }),
        ProviderErrorView::RateLimited { retry_after } => "rate limited (429)"@ + (
        match retry_after {
            Some(d) => ", retry after "@ + decimal(nanos(d) / 1_000_000_000) + "s"@,
            None => Seq::empty(),
        }),
        ProviderErrorView::StreamReset(s) => "stream reset before completion: "@ + s,
        ProviderErrorView::Decode(s) => "decode error: "@ + s,
    }
}

impl ProviderError {
    /// Whether trying again may help.
    #[must_use]
    pub fn is_retryable(&self) -> (r: bool)
        ensures
            r == worth_retrying(self.deep_view()),
    {
        match self {
            ProviderError::Transport(_) => true,
            ProviderError::RateLimited { .. } => true,
            ProviderError::StreamReset(_) => true,
            ProviderError::Status { retryable, .. } => *retryable,
            _ => false,
        }
    }

    /// How long the endpoint asked to wait.
    #[must_use]
    pub fn retry_after(&self) -> (r: Option<Duration>)
        ensures
            r == asked_wait(self.deep_view()),
    {
        match self {
            ProviderError::RateLimited { retry_after } => *retry_after,
            _ => None,
        }
    }

    /// The error that a status stands for.
    #[must_use]
    pub fn from_status(status: u16, body: Option<String>) -> (e: ProviderError)
        ensures
            e.deep_view() == status_error(status, body.deep_view()),
    {
        if status == 429 {
            return ProviderError::RateLimited { retry_after: None };
        }
        let retryable = status == 408 || (500 <= status && status < 600);
        ProviderError::Status { status, retryable, body }
    }

    /// The error of a request that failed on its way, told by its text and by the status where it
    /// got as far as one.
    #[must_use]
    pub fn from_transport(status: Option<u16>, text: String) -> (e: ProviderError)
        ensures
            e.deep_view() == transport_error(status, text@),
    {
        match status {
            Some(code) => ProviderError::from_status(code, Some(text)),
            None => ProviderError::Transport(text),
        }
    }

    /// The message of the error.
    pub fn message(&self) -> (m: String)
        ensures
            m@ == provider_message(self.deep_view()),
    {
        match self {
            ProviderError::MissingApiKey(s) => {
                let mut m = joined("missing API key: environment variable `", s.as_str());
                m.append("` is not set");
                m
            },
            ProviderError::Config(s) => joined("provider configuration error: ", s.as_str()),
            ProviderError::Transport(s) => joined("transport error: ", s.as_str()),
            ProviderError::Status { status, body, .. } => {
                let mut m = "http status ".to_owned();
                let code = decimal_text(*status as u64);
                m.append(code.as_str());
                match body {
                    Some(b) => {
                        let tail = joined(": ", b.as_str());
                        m.append(tail.as_str());
                    },
                    None => {
                        assert(m@ + Seq::<char>::empty() =~= m@);
                    },
                }
                m
            },
            ProviderError::RateLimited { retry_after } => {
                let mut m = "rate limited (429)".to_owned();
                match retry_after {
                    Some(d) => {
                        let secs = decimal_text(d.as_secs());
                        let mut tail = joined(", retry after ", secs.as_str());
                        tail.append("s");
                        m.append(tail.as_str());
                    },
                    None => {
                        assert(m@ + Seq::<char>::empty() =~= m@);
                    },
                }
                m
            },
            ProviderError::StreamReset(s) => joined("stream reset before completion: ", s.as_str()),
            ProviderError::Decode(s) => joined("decode error: ", s.as_str()),
        }
    }
}

/// Which failures are worth another attempt: those of the connection, a broken stream, too many requests,
/// and of the other answers those that tell of a time-out or of a fault of the endpoint.
pub proof fn passing_faults_are_retried(status: u16, body: Option<Seq<char>>, text: Seq<char>)
    ensures
        worth_retrying(status_error(status, body)) <==> status == 408 || status == 429 || 500 <= status
            < 600,
        status != 429 ==> (status_error(status, body) matches ProviderErrorView::Status {
            status: told,
            body: kept,
            ..
        } && told == status && kept == body),
        status == 429 ==> status_error(status, body) == (ProviderErrorView::RateLimited {
            retry_after: None,
        }),
        worth_retrying(ProviderErrorView::Transport(text)),
        worth_retrying(ProviderErrorView::StreamReset(text)),
        !worth_retrying(ProviderErrorView::Decode(text)),
        !worth_retrying(ProviderErrorView::Config(text)),
        !worth_retrying(ProviderErrorView::MissingApiKey(text)),
        transport_error(None, text) == ProviderErrorView::Transport(text),
        transport_error(Some(status), text) == status_error(status, Some(text)),
        forall|d: Option<Duration>|
            #[trigger] asked_wait(ProviderErrorView::RateLimited { retry_after: d }) == d,
{
}

} // verus!
