use ssdm::duration::Duration;
use ssdm::ratelimit::{delay_needed, host_of, Instant, RateLimiter};

#[test]
fn host_of_extracts_authority() {
    assert_eq!(host_of("https://celestrak.org/NORAD/x?y=1").as_deref(), Some("celestrak.org"));
    assert_eq!(host_of("https://datacenter.iers.org/data/f.txt").as_deref(), Some("datacenter.iers.org"));
    assert_eq!(host_of("not a url"), None);
}

#[test]
fn host_of_lowercases() {
    assert_eq!(host_of("https://CelesTrak.ORG/x").as_deref(), Some("celestrak.org"));
    // a non-special scheme keeps the host's case in the parser; the result is lowercased
    assert_eq!(host_of("foo://ABC.Example/x").as_deref(), Some("abc.example"));
}

#[test]
fn delay_needed_enforces_min_interval() {
    let now = Instant::from_millis(10_000_000);
    let min = Duration::from_secs(2);
    assert_eq!(delay_needed(None, now, min), Duration::zero(), "first call: no wait");
    let last = now.checked_sub(Duration::from_millis(500)).unwrap();
    assert_eq!(delay_needed(Some(last), now, min), Duration::from_millis(1500));
    let old = now.checked_sub(Duration::from_secs(10)).unwrap();
    assert_eq!(delay_needed(Some(old), now, min), Duration::zero(), "interval already passed");
}

#[test]
fn throttle_without_jitter_waits_the_owed_gap() {
    let mut rate = RateLimiter::new(Duration::from_secs(2), Duration::zero());
    let (host, wait) = rate.throttle_delay("https://h.example/a", Instant::from_millis(1000));
    assert_eq!(host, "h.example");
    assert_eq!(wait, Duration::zero(), "first request to a host");
    rate.mark(host, Instant::from_millis(1000));
    let (host, wait) = rate.throttle_delay("https://h.example/b", Instant::from_millis(1500));
    assert_eq!(wait, Duration::from_millis(1500));
    let (_, other) = rate.throttle_delay("https://other.example/", Instant::from_millis(1500));
    assert_eq!(other, Duration::zero(), "hosts are gated separately");
    rate.mark(host, Instant::from_millis(5000));
    let (_, wait) = rate.throttle_delay("https://h.example/c", Instant::from_millis(6000));
    assert_eq!(wait, Duration::from_millis(1000));
}

#[test]
fn throttle_jitter_stays_within_bound() {
    let rate = RateLimiter::new(Duration::zero(), Duration::from_millis(50));
    for _ in 0..50 {
        let (_, wait) = rate.throttle_delay("https://h.example/a", Instant::from_millis(0));
        assert!(wait.as_millis() <= 50);
    }
}

#[test]
fn unparsable_url_counts_against_empty_host() {
    let rate = RateLimiter::new(Duration::from_secs(1), Duration::zero());
    let (host, _) = rate.throttle_delay("not a url", Instant::from_millis(0));
    assert_eq!(host, "");
}

#[test]
fn stagger_is_added_to_the_owed_gap() {
    let mut rate = RateLimiter::new(Duration::from_secs(2), Duration::from_millis(300));
    let (host, wait) = rate.throttle_delay_with("https://H.example/a", Instant::from_millis(1000), 120);
    assert_eq!(host, "h.example");
    assert_eq!(wait, Duration::from_millis(120), "first request: the stagger alone");
    rate.mark(host, Instant::from_millis(1000));
    let (_, wait) = rate.throttle_delay_with("https://h.example/b", Instant::from_millis(1500), 300);
    assert_eq!(wait, Duration::from_millis(1500 + 300));
    let (_, wait) = rate.throttle_delay_with("https://h.example/c", Instant::from_millis(1500), 0);
    assert_eq!(wait, Duration::from_millis(1500));
}

#[test]
fn no_stagger_when_jitter_is_zero() {
    let rate = RateLimiter::new(Duration::from_secs(1), Duration::zero());
    let (_, wait) = rate.throttle_delay_with("https://h.example/a", Instant::from_millis(0), 0);
    assert_eq!(wait, Duration::zero());
}

#[test]
fn huge_gap_on_first_request_owes_nothing() {
    let max = Duration::from_secs(u64::MAX);
    let rate = RateLimiter::new(max, Duration::from_millis(10));
    let (_, wait) = rate.throttle_delay("https://h.example/a", Instant::from_millis(0));
    assert!(wait.as_millis() <= 10);
}

#[test]
fn owed_gap_keeps_sub_millisecond_precision() {
    let min = Duration::from_secs(2);
    let last = Instant::from_nanos(1_000_400_000);
    let now = Instant::from_nanos(1_500_000_000);
    assert_eq!(delay_needed(Some(last), now, min), Duration::from_nanos(1_500_400_000));
    let span = Duration::from_nanos(1_500_400_000);
    assert_eq!(span.as_millis(), 1500);
    assert_eq!(span.as_nanos(), 1_500_400_000);
}

#[test]
fn marked_request_is_spaced_from_the_next() {
    let mut rate = RateLimiter::new(Duration::from_secs(2), Duration::from_millis(5));
    let t1 = Instant::from_nanos(7_000_000_123);
    rate.mark("h.example".to_string(), t1);
    let now = Instant::from_nanos(7_900_000_000);
    let (_, wait) = rate.throttle_delay("https://h.example/x", now);
    // the request fires `wait` after `now`: at least two seconds after `t1`
    assert!(now.saturating_duration_since(t1).as_nanos() + wait.as_nanos() >= 2_000_000_000);
    assert!(wait.as_nanos() >= 1_100_000_123 && wait.as_nanos() <= 1_105_000_123);
}
