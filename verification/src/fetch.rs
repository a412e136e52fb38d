//! Fetch outcomes and the short, bounded in-run retry of a single product fetch.

use vstd::prelude::*;

use crate::duration::Duration;
use crate::retry::{backoff_delay, backoff_secs, MAX_ATTEMPTS};

verus! {

/// Outcome of a failed fetch attempt.
///
/// `Retryable` is a transient failure (network error, timeout, 5xx) worth a
/// quick in-run retry. `Fatal` is a client error (4xx, e.g. 403/429 rate-limit)
/// where retrying within seconds is pointless and can prolong a throttle — we
/// give up immediately and let the product's interval be the real backoff.
#[derive(Debug)]
pub enum FetchError {
    Retryable(String),
    Fatal(String),
}

impl FetchError {
    /// The error text.
    pub fn message(&self) -> (s: &String)
        ensures
            *s == match *self {
                FetchError::Retryable(m) => m,
                FetchError::Fatal(m) => m,
            },
    {
        match self {
            FetchError::Retryable(m) => m,
            FetchError::Fatal(m) => m,
        }
    }
}

/// How an HTTP response status reads to the fetcher.
#[derive(Debug, PartialEq, Eq, Structural, Clone, Copy)]
pub enum ResponseClass {
    /// 2xx: take the body.
    Success,
    /// 4xx: a client error that a quick retry will not clear.
    Fatal,
    /// Anything else (5xx, 1xx, 3xx): transient.
    Retryable,
}

/// The class of an HTTP status code: 2xx success, 4xx fatal, the rest retryable.
pub open spec fn response_class(code: u16) -> ResponseClass {
    if 200 <= code < 300 {
        ResponseClass::Success
    } else if 400 <= code < 500 {
        ResponseClass::Fatal
    } else {
        ResponseClass::Retryable
    }
}

/// Classifies an HTTP status code as the fetcher does: success for 2xx, fatal
/// for a client error (4xx), retryable otherwise.
pub fn classify_status(code: u16) -> (c: ResponseClass)
    ensures
        c == response_class(code),
{
    if 200 <= code && code < 300 {
        ResponseClass::Success
    } else if 400 <= code && code < 500 {
        ResponseClass::Fatal
    } else {
        ResponseClass::Retryable
    }
}

/// What the retry loop does after an attempt.
#[derive(Debug, PartialEq, Eq, Structural, Clone, Copy)]
pub enum RetryDecision {
    /// Stop and hand back this attempt's outcome.
    Finish,
    /// Sleep this long, then make the next attempt.
    RetryAfter(Duration),
}

/// After attempt `attempt` (1-based): a success or a fatal error finishes; a
/// retryable error is retried after the backoff delay unless it was the last
/// allowed attempt, in which case its error is the result.
pub open spec fn decision(attempt: nat, outcome: Result<Vec<u8>, FetchError>) -> Option<nat> {
    match outcome {
        Ok(_) => None,
        Err(FetchError::Fatal(_)) => None,
        Err(FetchError::Retryable(_)) => if attempt < MAX_ATTEMPTS {
            Some(backoff_secs(attempt) * 1_000_000_000)
        } else {
            None
        },
    }
}

/// Decides, after attempt `attempt` (1-based) of at most `MAX_ATTEMPTS`, whether
/// to finish with this outcome or to sleep and try again.
pub fn after_attempt(attempt: u32, outcome: &Result<Vec<u8>, FetchError>) -> (d: RetryDecision)
    requires
        1 <= attempt <= MAX_ATTEMPTS,
    ensures
        match d {
            RetryDecision::Finish => decision(attempt as nat, *outcome) is None,
            RetryDecision::RetryAfter(delay) => decision(attempt as nat, *outcome) == Some(delay@),
        },
        d is RetryAfter ==> attempt < MAX_ATTEMPTS,
{
    match outcome {
        Ok(_) => RetryDecision::Finish,
        Err(FetchError::Fatal(_)) => RetryDecision::Finish,
        Err(FetchError::Retryable(_)) => {
            if attempt < MAX_ATTEMPTS {
                RetryDecision::RetryAfter(backoff_delay(attempt))
            } else {
                RetryDecision::Finish
            }
        },
    }
}

} // verus!
