//! Per-host minimum-interval gate plus a small randomized stagger, so many
//! same-host products coming due together do not burst against one upstream.

use vstd::prelude::*;

use crate::duration::{whole_millis, Duration, MAX_NANOS, NANOS_PER_MILLI};
use crate::strmap::StrMap;
use rand::Rng;

verus! {

/// A reading of a monotonic clock, in nanoseconds from an arbitrary origin.
#[derive(Clone, Copy, Debug, PartialEq, Eq, Structural)]
pub struct Instant {
    nanos: u128,
}

impl View for Instant {
    type V = nat;

    closed spec fn view(&self) -> nat {
        self.nanos as nat
    }
}

impl Instant {
    #[verifier::type_invariant]
    spec fn in_range(self) -> bool {
        self.nanos <= MAX_NANOS
    }

    /// The reading `nanos` nanoseconds after the clock's origin.
    pub fn from_nanos(nanos: u64) -> (t: Instant)
        ensures
            t@ == nanos,
    {
        Instant { nanos: nanos as u128 }
    }

    /// The reading `millis` milliseconds after the clock's origin.
    pub fn from_millis(millis: u64) -> (t: Instant)
        ensures
            t@ == millis * NANOS_PER_MILLI,
    {
        Instant { nanos: millis as u128 * NANOS_PER_MILLI }
    }

    /// Time elapsed from `earlier` to `self`, or zero when `earlier` is later.
    pub fn saturating_duration_since(&self, earlier: Instant) -> (d: Duration)
        ensures
            d@ == (if self@ >= earlier@ { self@ - earlier@ } else { 0 }),
    {
        proof {
            use_type_invariant(self);
        }
        if self.nanos >= earlier.nanos {
            Duration::from_total_nanos(self.nanos - earlier.nanos)
        } else {
            Duration::zero()
        }
    }

    /// The reading `d` before `self`, or `None` before the clock's origin.
    pub fn checked_sub(&self, d: Duration) -> (t: Option<Instant>)
        ensures
            t matches Some(x) ==> x@ == self@ - d@,
            t is None <==> d@ > self@,
    {
        proof {
            use_type_invariant(self);
        }
        let ns = d.as_nanos();
        if ns <= self.nanos {
            Some(Instant { nanos: self.nanos - ns })
        } else {
            None
        }
    }
}

/// The host of a URL as the URL parser reads it: `None` when the text does not
/// parse as an absolute URL or has no host.
pub uninterp spec fn url_host(url: Seq<char>) -> Option<Seq<char>>;

/// Calls `reqwest::Url::parse` (the `url` crate's parser) and then `host_str`:
/// the result is the parsed URL's host, or `None` when parsing fails or the URL
/// has no host. The contract names that result; it claims nothing more of it.
#[verifier::external_body]
fn parse_url_host(url: &str) -> (h: Option<String>)
    ensures
        match h {
            Some(s) => url_host(url@) == Some(s@),
            None => url_host(url@) is None,
        },
{
    match reqwest::Url::parse(url) {
        Ok(u) => u.host_str().map(|s| s.to_string()),
        Err(_) => None,
    }
}

/// The lowercase mapping of a string, as `str::to_lowercase` defines it.
pub uninterp spec fn lowercase(s: Seq<char>) -> Seq<char>;

/// Calls `str::to_lowercase`; the contract names its result.
#[verifier::external_body]
fn to_lowercase(s: &str) -> (r: String)
    ensures
        r@ == lowercase(s@),
{
    s.to_lowercase()
}

/// Lowercased host (authority) of a URL, or None if it does not parse.
pub fn host_of(url: &str) -> (h: Option<String>)
    ensures
        match h {
            Some(s) => url_host(url@) is Some && s@ == lowercase(url_host(url@)->0),
            None => url_host(url@) is None,
        },
{
    match parse_url_host(url) {
        Some(host) => Some(to_lowercase(host.as_str())),
        None => None,
    }
}

/// The wait still owed so that a request at `now` comes at least `min` after
/// one at `last`.
pub open spec fn owed(last: Option<Instant>, now: Instant, min: Duration) -> nat {
    match last {
        None => 0,
        Some(t) => {
            let elapsed: nat = if now@ >= t@ { (now@ - t@) as nat } else { 0 };
            if min@ >= elapsed { (min@ - elapsed) as nat } else { 0 }
        },
    }
}

/// Remaining wait so a same-host request is at least `min` after the last one.
pub fn delay_needed(last: Option<Instant>, now: Instant, min: Duration) -> (d: Duration)
    ensures
        d@ == owed(last, now, min),
{
    match last {
        None => Duration::zero(),
        Some(t) => {
            let elapsed = now.saturating_duration_since(t);
            min.saturating_sub(elapsed)
        },
    }
}

/// Waiting the owed delay after `now` puts the request at least `min` after the
/// last one.
pub proof fn lemma_delay_enforces_spacing(t: Instant, now: Instant, min: Duration)
    requires
        t@ <= now@,
    ensures
        now@ + owed(Some(t), now, min) - t@ >= min@,
        owed(Some(t), now, min) <= min@,
{
}

/// The key a request to `url` counts against: its lowercased host, or the empty
/// text when it has none.
pub open spec fn host_key(url: Seq<char>) -> Seq<char> {
    match url_host(url) {
        Some(h) => lowercase(h),
        None => Seq::<char>::empty(),
    }
}

/// The stagger a draw adds: the draw in milliseconds, or nothing when the
/// jitter is zero.
pub open spec fn stagger(jitter: Duration, draw: u64) -> nat {
    if jitter@ == 0 {
        0
    } else {
        (draw * NANOS_PER_MILLI) as nat
    }
}

/// Draws a uniformly random whole number from `0..=max` with the thread-local
/// generator (`rand::thread_rng().gen_range(0..=max)`); the range is never
/// empty. Only the bound is stated: the value is chance.
#[verifier::external_body]
fn random_up_to(max: u64) -> (r: u64)
    ensures
        r <= max,
{
    rand::thread_rng().gen_range(0..=max)
}

/// The per-host gate: the last request instant of each host, the minimum gap
/// between two requests to one host, and the largest random stagger.
pub struct RateLimiter {
    last: StrMap<Instant>,
    min_interval: Duration,
    jitter: Duration,
}

impl RateLimiter {
    /// The last request instant of each host.
    pub closed spec fn last_seen(self) -> Map<Seq<char>, Instant> {
        self.last@
    }

    /// The minimum gap between two requests to one host.
    pub closed spec fn min_gap(self) -> Duration {
        self.min_interval
    }

    /// The largest random stagger added to a wait.
    pub closed spec fn max_jitter(self) -> Duration {
        self.jitter
    }

    /// A gate that has seen no request yet.
    pub fn new(min_interval: Duration, jitter: Duration) -> (r: Self)
        ensures
            r.last_seen() == Map::<Seq<char>, Instant>::empty(),
            r.min_gap() == min_interval,
            r.max_jitter() == jitter,
    {
        RateLimiter { last: StrMap::new(), min_interval, jitter }
    }

    /// The last request instant recorded for `host`.
    pub fn last_request(&self, host: &str) -> (t: Option<Instant>)
        ensures
            match t {
                Some(x) => self.last_seen().contains_key(host@) && self.last_seen()[host@] == x,
                None => !self.last_seen().contains_key(host@),
            },
    {
        match self.last.get(host) {
            Some(t) => Some(*t),
            None => None,
        }
    }

    /// The last request instant recorded for `host`, as a spec value.
    pub open spec fn last_of(self, host: Seq<char>) -> Option<Instant> {
        if self.last_seen().contains_key(host) {
            Some(self.last_seen()[host])
        } else {
            None
        }
    }

    /// The wait before a request to `host` at `now` given the random draw `draw`:
    /// the per-host gap still owed plus the draw as stagger (no stagger when the
    /// jitter is zero); where that sum leaves the range of a `Duration`, the owed
    /// gap alone.
    pub open spec fn delay_for(self, host: Seq<char>, now: Instant, draw: u64) -> nat {
        let wait = owed(self.last_of(host), now, self.min_gap());
        let total = wait + stagger(self.max_jitter(), draw);
        if total <= MAX_NANOS {
            total
        } else {
            wait
        }
    }

    /// The wait before a request to `url` at `now`, given `draw`, a random whole
    /// number of milliseconds from `0..=` the jitter: the per-host gap still owed
    /// plus the draw (none when the jitter is zero). Also returns the host the
    /// request counts against (empty when `url` has none).
    pub fn throttle_delay_with(&self, url: &str, now: Instant, draw: u64) -> (r: (String, Duration))
        requires
            draw <= (whole_millis(self.max_jitter()@) as u64),
        ensures
            r.0@ == host_key(url@),
            r.1@ == self.delay_for(r.0@, now, draw),
    {
        let host = match host_of(url) {
            Some(h) => h,
            None => String::new(),
        };
        let wait = delay_needed(self.last_request(host.as_str()), now, self.min_interval);
        let jitter = if self.jitter.is_zero() {
            Duration::zero()
        } else {
            Duration::from_millis(draw)
        };
        let total = match wait.checked_add(jitter) {
            Some(t) => t,
            None => wait,
        };
        (host, total)
    }

    /// The wait before a request to `url` at `now`: the per-host gap still owed
    /// plus a random stagger of at most the jitter (none when the jitter is zero).
    /// Also returns the host the request counts against (empty when `url` has none).
    pub fn throttle_delay(&self, url: &str, now: Instant) -> (r: (String, Duration))
        ensures
            r.0@ == host_key(url@),
            exists|draw: u64|
                draw <= (whole_millis(self.max_jitter()@) as u64) && r.1@ == #[trigger] self.delay_for(
                    r.0@,
                    now,
                    draw,
                ),
    {
        let draw = if self.jitter.is_zero() {
            0
        } else {
            random_up_to(self.jitter.as_millis() as u64)
        };
        let r = self.throttle_delay_with(url, now, draw);
        proof {
            assert(r.1@ == self.delay_for(r.0@, now, draw));
        }
        r
    }

    /// Records a request to `host` at `at`.
    pub fn mark(&mut self, host: String, at: Instant)
        ensures
            final(self).last_seen() == old(self).last_seen().insert(host@, at),
            final(self).min_gap() == old(self).min_gap(),
            final(self).max_jitter() == old(self).max_jitter(),
    {
        self.last.insert(host, at);
    }
}

/// Two requests to one host come at least the minimum gap apart: once `mark` has
/// recorded a request to `host` at `t1` (taking `before` to `after`), a later
/// request whose wait is computed at `now`, with any draw, fires no earlier
/// than `min_gap` after `t1`.
pub proof fn lemma_marked_requests_spaced(
    before: RateLimiter,
    after: RateLimiter,
    host: Seq<char>,
    t1: Instant,
    now: Instant,
    draw: u64,
)
    requires
        after.last_seen() == before.last_seen().insert(host, t1),
        after.min_gap() == before.min_gap(),
        after.max_jitter() == before.max_jitter(),
        t1@ <= now@,
    ensures
        now@ + after.delay_for(host, now, draw) >= t1@ + before.min_gap()@,
{
    assert(after.last_of(host) == Some(t1));
    lemma_delay_enforces_spacing(t1, now, after.min_gap());
}

} // verus!
