use ssdm::duration::Duration;
use ssdm::fetch::{after_attempt, classify_status, FetchError, ResponseClass, RetryDecision};
use ssdm::retry::{backoff_delay, MAX_ATTEMPTS};

#[test]
fn backoff_is_capped_exponential() {
    assert_eq!(backoff_delay(1), Duration::from_secs(1));
    assert_eq!(backoff_delay(2), Duration::from_secs(2));
    assert_eq!(backoff_delay(3), Duration::from_secs(4));
    assert_eq!(backoff_delay(4), Duration::from_secs(8));
    assert_eq!(backoff_delay(5), Duration::from_secs(16));
    assert_eq!(backoff_delay(99), Duration::from_secs(30), "capped at 30s");
}

#[test]
fn backoff_edges() {
    assert_eq!(backoff_delay(0), Duration::from_secs(1));
    assert_eq!(backoff_delay(6), Duration::from_secs(30));
    assert_eq!(backoff_delay(u32::MAX), Duration::from_secs(30));
}

/// Drives the retry loop over a scripted series of outcomes; returns the final
/// outcome, the number of attempts made and the delays slept.
fn drive(mut next: impl FnMut(u32) -> Result<Vec<u8>, FetchError>) -> (Result<Vec<u8>, FetchError>, u32, Vec<Duration>) {
    let mut slept = Vec::new();
    let mut attempt = 1;
    loop {
        let outcome = next(attempt);
        match after_attempt(attempt, &outcome) {
            RetryDecision::Finish => return (outcome, attempt, slept),
            RetryDecision::RetryAfter(d) => {
                slept.push(d);
                attempt += 1;
            }
        }
    }
}

#[test]
fn retries_then_succeeds() {
    let (res, calls, slept) = drive(|n| {
        if n < 3 { Err(FetchError::Retryable("transient".into())) } else { Ok(vec![1u8, 2, 3]) }
    });
    assert_eq!(res.unwrap(), vec![1, 2, 3]);
    assert_eq!(calls, 3);
    assert_eq!(slept, vec![Duration::from_secs(1), Duration::from_secs(2)]);
}

#[test]
fn gives_up_after_max_attempts() {
    let (res, calls, _) = drive(|_| Err(FetchError::Retryable("always".into())));
    assert!(res.is_err());
    assert_eq!(calls, MAX_ATTEMPTS);
}

#[test]
fn fatal_error_is_not_retried() {
    let (res, calls, _) = drive(|_| Err(FetchError::Fatal("403 Forbidden".into())));
    assert!(res.is_err());
    assert_eq!(calls, 1, "a fatal (4xx) error must not be retried");
}

#[test]
fn last_retryable_error_is_returned() {
    let (res, _, _) = drive(|n| Err(FetchError::Retryable(format!("try {n}"))));
    assert_eq!(res.err().unwrap().message(), "try 5");
}

#[test]
fn status_codes_classify() {
    assert_eq!(classify_status(200), ResponseClass::Success);
    assert_eq!(classify_status(299), ResponseClass::Success);
    assert_eq!(classify_status(304), ResponseClass::Retryable);
    assert_eq!(classify_status(403), ResponseClass::Fatal);
    assert_eq!(classify_status(429), ResponseClass::Fatal);
    assert_eq!(classify_status(499), ResponseClass::Fatal);
    assert_eq!(classify_status(500), ResponseClass::Retryable);
    assert_eq!(classify_status(503), ResponseClass::Retryable);
    assert_eq!(classify_status(100), ResponseClass::Retryable);
}
