//! Product fetch cadence: a recurring elapsed interval, or a UTC
//! weekday + time-of-day anchor. Pure epoch-ms math, no date library.

use vstd::prelude::*;

use crate::duration::{whole_millis, Duration, NANOS_PER_MILLI};

verus! {

/// Milliseconds in one UTC day.
pub const DAY_MS: u64 = 86_400_000;

/// Milliseconds in one week.
pub const WEEK_MS: u64 = 604_800_000;

/// Day of week in UTC, numbered from Monday = 0 as `(epoch_day + 3) % 7` does,
/// since epoch day 0 (1970-01-01) was a Thursday.
#[derive(Clone, Copy, PartialEq, Eq, Debug, Structural)]
pub enum Weekday {
    Mon,
    Tue,
    Wed,
    Thu,
    Fri,
    Sat,
    Sun,
}

impl Weekday {
    /// Monday = 0 through Sunday = 6.
    pub open spec fn ordinal(self) -> nat {
        match self {
            Weekday::Mon => 0,
            Weekday::Tue => 1,
            Weekday::Wed => 2,
            Weekday::Thu => 3,
            Weekday::Fri => 4,
            Weekday::Sat => 5,
            Weekday::Sun => 6,
        }
    }

    /// Monday = 0 through Sunday = 6.
    pub fn number(&self) -> (n: u64)
        ensures
            n == self.ordinal(),
    {
        match self {
            Weekday::Mon => 0,
            Weekday::Tue => 1,
            Weekday::Wed => 2,
            Weekday::Thu => 3,
            Weekday::Fri => 4,
            Weekday::Sat => 5,
            Weekday::Sun => 6,
        }
    }
}

/// When a product is due to be fetched.
#[derive(Clone, Copy, PartialEq, Eq, Debug, Structural)]
pub enum Schedule {
    /// Recurring: due once `interval` has elapsed since the last attempt.
    Every(Duration),
    /// Anchored: due once per week, at `weekday` on/after `time` into the UTC day.
    WeeklyAt { weekday: Weekday, time: Duration },
}

/// Weekday number (Monday = 0) of the UTC day that holds `ms`.
pub open spec fn weekday_of(ms: int) -> int {
    (ms / DAY_MS as int + 3) % 7
}

/// Most recent instant of `weekday` at `tod_ms` into the UTC day, at or before
/// `now_ms`: go back the whole days since that weekday (no further than the epoch),
/// add the time of day, and step back a week when that lands after `now_ms`
/// (never below zero).
pub open spec fn anchor(weekday: Weekday, tod_ms: int, now_ms: int) -> int {
    let day = now_ms / DAY_MS as int;
    let delta = (weekday_of(now_ms) + 7 - weekday.ordinal()) % 7;
    let start_day = if day >= delta { day - delta } else { 0 };
    let candidate = start_day * DAY_MS + tod_ms;
    if candidate > now_ms {
        if candidate >= WEEK_MS { candidate - WEEK_MS } else { 0 }
    } else {
        candidate
    }
}

/// `a - b`, or zero when `b` is larger.
pub open spec fn sat_sub(a: int, b: int) -> int {
    if a >= b { a - b } else { 0 }
}

/// Most recent instant of `weekday` at `tod_ms` into the UTC day, at or before `now_ms`.
pub fn most_recent_anchor(weekday: Weekday, tod_ms: u64, now_ms: u64) -> (a: u64)
    requires
        now_ms + tod_ms <= u64::MAX,
    ensures
        a == anchor(weekday, tod_ms as int, now_ms as int),
{
    let day = now_ms / DAY_MS;
    let current_weekday = (day + 3) % 7;
    let wd = weekday.number();
    let delta = (current_weekday + 7 - wd) % 7;
    let start_day = day.saturating_sub(delta);
    proof {
        assert(start_day <= day);
        assert(day * DAY_MS <= now_ms) by (nonlinear_arith)
            requires
                day == now_ms / DAY_MS,
        ;
        assert(start_day * DAY_MS <= day * DAY_MS) by (nonlinear_arith)
            requires
                start_day <= day,
        ;
    }
    let candidate = start_day * DAY_MS + tod_ms;
    if candidate > now_ms {
        candidate.saturating_sub(WEEK_MS)
    } else {
        candidate
    }
}

impl Schedule {
    /// The interval in whole milliseconds, as the `u64` the schedule arithmetic uses
    /// (`Every` only; `WeeklyAt` has none).
    pub open spec fn interval_ms(self) -> int {
        match self {
            Schedule::Every(interval) => (whole_millis(interval@) as u64) as int,
            Schedule::WeeklyAt { .. } => 0,
        }
    }

    /// The time of day in whole milliseconds, as a `u64` (`WeeklyAt` only).
    pub open spec fn tod_ms(self) -> int {
        match self {
            Schedule::Every(_) => 0,
            Schedule::WeeklyAt { time, .. } => (whole_millis(time@) as u64) as int,
        }
    }

    /// The most recent weekly anchor at or before `now_ms` (`WeeklyAt` only).
    pub open spec fn anchor_at(self, now_ms: int) -> int {
        match self {
            Schedule::Every(_) => 0,
            Schedule::WeeklyAt { weekday, .. } => anchor(weekday, self.tod_ms(), now_ms),
        }
    }

    /// The instants at which finding the anchor stays within `u64`: always for
    /// `Every`, and for `WeeklyAt` while `now_ms` plus the time of day fits.
    pub open spec fn fits_at(self, now_ms: u64) -> bool {
        match self {
            Schedule::Every(_) => true,
            Schedule::WeeklyAt { .. } => now_ms + self.tod_ms() <= u64::MAX,
        }
    }

    /// Counting the time to the next weekly anchor stays within `u64`: the anchor
    /// fits, and when the schedule is not due, so does the anchor one week on.
    pub open spec fn remaining_fits(self, last: Option<u64>, now_ms: u64) -> bool {
        &&& self.fits_at(now_ms)
        &&& (self is WeeklyAt && !self.due(last, now_ms)) ==> self.anchor_at(now_ms as int) + WEEK_MS
            <= u64::MAX
    }

    /// Due at `now_ms` given the last attempt: never attempted, or the interval has
    /// elapsed since it (`Every`), or it came before the most recent weekly anchor
    /// (`WeeklyAt`).
    pub open spec fn due(self, last: Option<u64>, now_ms: u64) -> bool {
        match last {
            None => true,
            Some(t) => match self {
                Schedule::Every(_) => sat_sub(now_ms as int, t as int) >= self.interval_ms(),
                Schedule::WeeklyAt { .. } => t < self.anchor_at(now_ms as int),
            },
        }
    }

    /// Milliseconds until due: zero when due; for `Every`, what is left of the
    /// interval; for `WeeklyAt`, the time to the anchor one week after the most recent.
    pub open spec fn remaining(self, last: Option<u64>, now_ms: u64) -> int {
        if self.due(last, now_ms) {
            0
        } else {
            match self {
                Schedule::Every(_) => sat_sub(
                    self.interval_ms(),
                    sat_sub(now_ms as int, last->0 as int),
                ),
                Schedule::WeeklyAt { .. } => sat_sub(
                    self.anchor_at(now_ms as int) + WEEK_MS,
                    now_ms as int,
                ),
            }
        }
    }

    /// The reference time a schedule counts from: the last attempt for `Every`;
    /// for `WeeklyAt` the last successful download, so that a failed attempt after
    /// the anchor does not put the product off for a week.
    pub open spec fn reference(self, last_attempt: Option<u64>, last_checked: Option<u64>) -> Option<
        u64,
    > {
        match self {
            Schedule::Every(_) => last_attempt,
            Schedule::WeeklyAt { .. } => last_checked,
        }
    }

    /// True when finding the anchor at `now_ms` stays within `u64`.
    pub fn fits(&self, now_ms: u64) -> (b: bool)
        ensures
            b == self.fits_at(now_ms),
    {
        match self {
            Schedule::Every(_) => true,
            Schedule::WeeklyAt { time, .. } => now_ms <= u64::MAX - (time.as_millis() as u64),
        }
    }

    /// True when counting the time until due from `last` at `now_ms` stays
    /// within `u64`.
    pub fn remaining_fits_at(&self, last: Option<u64>, now_ms: u64) -> (b: bool)
        ensures
            b == self.remaining_fits(last, now_ms),
    {
        if !self.fits(now_ms) {
            return false;
        }
        match self {
            Schedule::Every(_) => true,
            Schedule::WeeklyAt { weekday, time } => {
                if self.is_due(last, now_ms) {
                    true
                } else {
                    let anchor = most_recent_anchor(*weekday, time.as_millis() as u64, now_ms);
                    anchor <= u64::MAX - WEEK_MS
                }
            },
        }
    }

    /// True when the product should be fetched at `now_ms`.
    pub fn is_due(&self, last_attempt: Option<u64>, now_ms: u64) -> (b: bool)
        requires
            self.fits_at(now_ms),
        ensures
            b == self.due(last_attempt, now_ms),
    {
        match self {
            Schedule::Every(interval) => match last_attempt {
                None => true,
                Some(t) => now_ms.saturating_sub(t) >= interval.as_millis() as u64,
            },
            Schedule::WeeklyAt { weekday, time } => {
                let anchor = most_recent_anchor(*weekday, time.as_millis() as u64, now_ms);
                match last_attempt {
                    None => true,
                    Some(t) => t < anchor,
                }
            },
        }
    }

    /// Milliseconds until next due; 0 when already due.
    pub fn remaining_ms(&self, last_attempt: Option<u64>, now_ms: u64) -> (r: u64)
        requires
            self.remaining_fits(last_attempt, now_ms),
        ensures
            r == self.remaining(last_attempt, now_ms),
    {
        match self {
            Schedule::Every(interval) => match last_attempt {
                None => 0,
                Some(t) => (interval.as_millis() as u64).saturating_sub(now_ms.saturating_sub(t)),
            },
            Schedule::WeeklyAt { weekday, time } => {
                if self.is_due(last_attempt, now_ms) {
                    return 0;
                }
                let anchor = most_recent_anchor(*weekday, time.as_millis() as u64, now_ms);
                (anchor + WEEK_MS).saturating_sub(now_ms)
            },
        }
    }

    /// Due at `now_ms`, counting an `Every` schedule from the last attempt and a
    /// `WeeklyAt` schedule from the last successful download.
    pub fn is_due_given(&self, last_attempt: Option<u64>, last_checked: Option<u64>, now_ms: u64) -> (b: bool)
        requires
            self.fits_at(now_ms),
        ensures
            b == self.due(self.reference(last_attempt, last_checked), now_ms),
    {
        match self {
            Schedule::Every(_) => self.is_due(last_attempt, now_ms),
            Schedule::WeeklyAt { .. } => self.is_due(last_checked, now_ms),
        }
    }

    /// Milliseconds until due, counted from the same reference as `is_due_given`.
    pub fn remaining_ms_given(
        &self,
        last_attempt: Option<u64>,
        last_checked: Option<u64>,
        now_ms: u64,
    ) -> (r: u64)
        requires
            self.remaining_fits(self.reference(last_attempt, last_checked), now_ms),
        ensures
            r == self.remaining(self.reference(last_attempt, last_checked), now_ms),
    {
        match self {
            Schedule::Every(_) => self.remaining_ms(last_attempt, now_ms),
            Schedule::WeeklyAt { .. } => self.remaining_ms(last_checked, now_ms),
        }
    }

    /// The nominal period of a schedule in nanoseconds: the interval, or one week.
    pub open spec fn period(self) -> nat {
        match self {
            Schedule::Every(d) => d@,
            Schedule::WeeklyAt { .. } => (WEEK_MS * NANOS_PER_MILLI) as nat,
        }
    }

    /// Nominal period for display/freshness: the interval, or one week for weekly.
    pub fn nominal_period(&self) -> (d: Duration)
        ensures
            d@ == self.period(),
    {
        match self {
            Schedule::Every(d) => *d,
            Schedule::WeeklyAt { .. } => Duration::from_secs(WEEK_MS / 1000),
        }
    }
}

/// With a time of day inside the day, the anchor never lies after `now_ms`.
pub proof fn lemma_anchor_not_after_now(weekday: Weekday, tod_ms: int, now_ms: int)
    requires
        0 <= tod_ms < DAY_MS,
        0 <= now_ms,
    ensures
        0 <= anchor(weekday, tod_ms, now_ms) <= now_ms,
{
    let day = now_ms / DAY_MS as int;
    let r = now_ms % DAY_MS as int;
    let delta = (weekday_of(now_ms) + 7 - weekday.ordinal()) % 7;
    let start_day = if day >= delta { day - delta } else { 0 };
    assert(now_ms == day * DAY_MS + r && 0 <= r < DAY_MS) by {
        vstd::arithmetic::div_mod::lemma_fundamental_div_mod(now_ms, DAY_MS as int);
    }
    assert(0 <= start_day * DAY_MS <= day * DAY_MS) by (nonlinear_arith)
        requires
            0 <= start_day <= day,
    ;
    if start_day < day {
        assert(start_day * DAY_MS + DAY_MS <= day * DAY_MS) by (nonlinear_arith)
            requires
                0 <= start_day < day,
        ;
    }
}

/// For an instant at least a week past the epoch and a time of day inside the day,
/// the anchor is the most recent instant at or before `now_ms` that falls on the
/// target weekday at that time of day: it lies on that weekday, at that time of
/// day, and within the week that ends at `now_ms`.
pub proof fn lemma_anchor_is_most_recent(weekday: Weekday, tod_ms: int, now_ms: int)
    requires
        0 <= tod_ms < DAY_MS,
        now_ms >= WEEK_MS,
    ensures
        ({
            let a = anchor(weekday, tod_ms, now_ms);
            &&& a % (DAY_MS as int) == tod_ms
            &&& weekday_of(a) == weekday.ordinal()
            &&& now_ms - WEEK_MS < a <= now_ms
        }),
{
    let dd = DAY_MS as int;
    let day = now_ms / dd;
    let r = now_ms % dd;
    let c = weekday_of(now_ms);
    let w = weekday.ordinal() as int;
    let delta = (c + 7 - w) % 7;
    assert(now_ms == day * dd + r && 0 <= r < dd) by {
        vstd::arithmetic::div_mod::lemma_fundamental_div_mod(now_ms, dd);
    }
    assert(day >= 7) by (nonlinear_arith)
        requires
            now_ms == day * dd + r,
            0 <= r < dd,
            now_ms >= 7 * dd,
            dd > 0,
    ;
    assert(0 <= delta <= 6);
    let start_day = day - delta;
    let candidate = start_day * dd + tod_ms;
    let a = anchor(weekday, tod_ms, now_ms);
    // the day the anchor falls on
    let aday = if candidate > now_ms { start_day - 7 } else { start_day };
    if candidate > now_ms {
        assert(delta == 0) by {
            if delta > 0 {
                assert(start_day * dd + dd <= day * dd) by (nonlinear_arith)
                    requires
                        start_day < day,
                        dd > 0,
                ;
            }
        }
        assert(candidate >= WEEK_MS) by (nonlinear_arith)
            requires
                candidate == start_day * dd + tod_ms,
                start_day >= 7,
                tod_ms >= 0,
                dd == DAY_MS,
        ;
        assert(a == aday * dd + tod_ms) by (nonlinear_arith)
            requires
                a == candidate - WEEK_MS,
                candidate == start_day * dd + tod_ms,
                aday == start_day - 7,
                dd == DAY_MS,
        ;
    } else {
        assert(a == aday * dd + tod_ms);
    }
    assert(aday >= 0);
    assert(a / dd == aday && a % dd == tod_ms) by {
        vstd::arithmetic::div_mod::lemma_fundamental_div_mod_converse(a, dd, aday, tod_ms);
    }
    // weekday of the anchor's day
    assert((aday + 3) % 7 == w) by {
        let q = (day + 3) / 7;
        vstd::arithmetic::div_mod::lemma_fundamental_div_mod(day + 3, 7);
        assert(day + 3 == 7 * q + c);
        assert(0 <= c < 7 && 0 <= w < 7);
        // c - delta is w or w - 7
        let k = if c + 7 - w < 7 { q - 1 } else { q };
        assert(day + 3 - delta == k * 7 + w);
        let k2 = if aday == day - delta { k } else { k - 1 };
        assert(aday + 3 == k2 * 7 + w);
        vstd::arithmetic::div_mod::lemma_fundamental_div_mod_converse(aday + 3, 7, k2, w);
    }
    // within the week ending at now
    assert(now_ms - WEEK_MS < a <= now_ms) by (nonlinear_arith)
        requires
            now_ms == day * dd + r,
            0 <= r < dd,
            a == aday * dd + tod_ms,
            0 <= tod_ms < dd,
            aday == day - delta || (aday == day - delta - 7 && delta == 0 && tod_ms > r),
            candidate > now_ms ==> aday == day - delta - 7,
            candidate <= now_ms ==> aday == day - delta,
            candidate == (day - delta) * dd + tod_ms,
            0 <= delta <= 6,
            dd == DAY_MS,
            WEEK_MS == 7 * dd,
    ;
}

/// Nothing is left to wait exactly when the schedule is due (for a weekly time of
/// day inside the day).
pub proof fn lemma_remaining_zero_iff_due(s: Schedule, last: Option<u64>, now_ms: u64)
    requires
        s.tod_ms() < DAY_MS,
    ensures
        (s.remaining(last, now_ms) == 0) <==> s.due(last, now_ms),
{
    match s {
        Schedule::Every(_) => {},
        Schedule::WeeklyAt { weekday, .. } => {
            if !s.due(last, now_ms) {
                if now_ms >= WEEK_MS {
                    lemma_anchor_is_most_recent(weekday, s.tod_ms(), now_ms as int);
                } else {
                    lemma_anchor_not_after_now(weekday, s.tod_ms(), now_ms as int);
                }
            }
        },
    }
}

/// An `Every` schedule last attempted at or before `now_ms` is due once the
/// remaining time has passed.
pub proof fn lemma_every_due_after_remaining(s: Schedule, t: u64, now_ms: u64)
    requires
        s is Every,
        t <= now_ms,
        now_ms + s.remaining(Some(t), now_ms) <= u64::MAX,
    ensures
        s.due(Some(t), (now_ms + s.remaining(Some(t), now_ms)) as u64),
{
}

/// An instant that itself falls on the weekday at the time of day is its own anchor.
pub proof fn lemma_anchor_fixed(weekday: Weekday, tod_ms: int, x: int)
    requires
        0 <= tod_ms < DAY_MS,
        0 <= x,
        x % (DAY_MS as int) == tod_ms,
        weekday_of(x) == weekday.ordinal(),
    ensures
        anchor(weekday, tod_ms, x) == x,
{
    let dd = DAY_MS as int;
    vstd::arithmetic::div_mod::lemma_fundamental_div_mod(x, dd);
    assert(x / dd * dd == dd * (x / dd)) by (nonlinear_arith);
}

/// One week after an anchor instant is again an anchor instant.
pub proof fn lemma_week_later_same_slot(x: int)
    requires
        0 <= x,
    ensures
        (x + WEEK_MS) % (DAY_MS as int) == x % (DAY_MS as int),
        weekday_of(x + WEEK_MS) == weekday_of(x),
{
    let dd = DAY_MS as int;
    vstd::arithmetic::div_mod::lemma_fundamental_div_mod(x, dd);
    let q = x / dd;
    let r = x % dd;
    assert(x + WEEK_MS == (q + 7) * dd + r) by (nonlinear_arith)
        requires
            x == dd * q + r,
            dd == DAY_MS,
    ;
    vstd::arithmetic::div_mod::lemma_fundamental_div_mod_converse(x + WEEK_MS, dd, q + 7, r);
    vstd::arithmetic::div_mod::lemma_fundamental_div_mod(q + 3, 7);
    let k = (q + 3) / 7;
    vstd::arithmetic::div_mod::lemma_fundamental_div_mod_converse(q + 10, 7, k + 1, (q + 3) % 7);
}

/// A weekly schedule last attempted at or before `now_ms` is due once the
/// remaining time has passed: the next anchor is one week after the current one.
pub proof fn lemma_weekly_due_after_remaining(s: Schedule, t: u64, now_ms: u64)
    requires
        s is WeeklyAt,
        s.tod_ms() < DAY_MS,
        t <= now_ms,
        now_ms >= WEEK_MS,
        now_ms + s.remaining(Some(t), now_ms) <= u64::MAX,
    ensures
        s.due(Some(t), (now_ms + s.remaining(Some(t), now_ms)) as u64),
{
    if !s.due(Some(t), now_ms) {
        let a = s.anchor_at(now_ms as int);
        let later = (now_ms + s.remaining(Some(t), now_ms)) as u64;
        match s {
            Schedule::WeeklyAt { weekday, .. } => {
                lemma_anchor_is_most_recent(weekday, s.tod_ms(), now_ms as int);
                assert(later == a + WEEK_MS);
                lemma_week_later_same_slot(a);
                lemma_anchor_fixed(weekday, s.tod_ms(), later as int);
            },
            _ => {},
        }
    }
}

/// Two instants on the same weekday at the same time of day, less than a week
/// apart, are the same instant.
proof fn lemma_slot_unique_within_week(a: int, b: int)
    requires
        0 <= a,
        0 <= b,
        a % (DAY_MS as int) == b % (DAY_MS as int),
        weekday_of(a) == weekday_of(b),
        b - WEEK_MS < a < b + WEEK_MS,
    ensures
        a == b,
{
    let dd = DAY_MS as int;
    vstd::arithmetic::div_mod::lemma_fundamental_div_mod(a, dd);
    vstd::arithmetic::div_mod::lemma_fundamental_div_mod(b, dd);
    let qa = a / dd;
    let qb = b / dd;
    let w = weekday_of(a);
    vstd::arithmetic::div_mod::lemma_fundamental_div_mod(qa + 3, 7);
    vstd::arithmetic::div_mod::lemma_fundamental_div_mod(qb + 3, 7);
    let ka = (qa + 3) / 7;
    let kb = (qb + 3) / 7;
    assert(qa - qb == 7 * (ka - kb));
    assert(a - b == dd * (qa - qb));
    assert(a - b == WEEK_MS * (ka - kb)) by (nonlinear_arith)
        requires
            a - b == dd * (qa - qb),
            qa - qb == 7 * (ka - kb),
            dd == DAY_MS,
    ;
    assert(ka == kb) by (nonlinear_arith)
        requires
            a - b == WEEK_MS * (ka - kb),
            b - WEEK_MS < a < b + WEEK_MS,
    ;
}

/// The time left is exactly the wait until the product next comes due: nothing
/// is left exactly when it is due, the wait is at most the nominal period, no
/// instant before the end of the wait is due, and the end of a wait is.
pub proof fn lemma_remaining_is_wait_until_due(s: Schedule, last: Option<u64>, now_ms: u64)
    requires
        last matches Some(t) ==> t <= now_ms,
        s is WeeklyAt ==> s.tod_ms() < DAY_MS && now_ms >= WEEK_MS,
        now_ms + s.remaining(last, now_ms) <= u64::MAX,
    ensures
        (s.remaining(last, now_ms) == 0) <==> s.due(last, now_ms),
        s.remaining(last, now_ms) <= whole_millis(s.period()),
        s.remaining(last, now_ms) > 0 ==> s.due(last, (now_ms + s.remaining(last, now_ms)) as u64),
        forall|x: u64|
            now_ms <= x < now_ms + s.remaining(last, now_ms) ==> !#[trigger] s.due(last, x),
{
    let r = s.remaining(last, now_ms);
    lemma_remaining_zero_iff_due(s, last, now_ms);
    match last {
        None => {},
        Some(t) => {
            match s {
                Schedule::Every(d) => {
                    assert((whole_millis(d@) as u64) as int <= whole_millis(d@));
                    if r > 0 {
                        lemma_every_due_after_remaining(s, t, now_ms);
                    }
                },
                Schedule::WeeklyAt { weekday, .. } => {
                    let tod = s.tod_ms();
                    let a = s.anchor_at(now_ms as int);
                    lemma_anchor_is_most_recent(weekday, tod, now_ms as int);
                    if r > 0 {
                        lemma_weekly_due_after_remaining(s, t, now_ms);
                        assert forall|x: u64| now_ms <= x < now_ms + r implies !#[trigger] s.due(
                            last,
                            x,
                        ) by {
                            lemma_anchor_is_most_recent(weekday, tod, x as int);
                            let b = s.anchor_at(x as int);
                            lemma_slot_unique_within_week(a, b);
                        }
                    }
                },
            }
        },
    }
}

/// A weekly anchor falls on the named calendar weekday, numbered from Monday = 0
/// as `(epoch_day + 3) % 7` counts (1970-01-01 was a Thursday): Monday anchors
/// on days numbered 0, Saturday anchors on days numbered 5, Sunday anchors on 6.
pub proof fn lemma_anchor_on_named_weekday(weekday: Weekday, tod_ms: int, now_ms: int)
    requires
        0 <= tod_ms < DAY_MS,
        now_ms >= WEEK_MS,
    ensures
        (anchor(weekday, tod_ms, now_ms) / (DAY_MS as int) + 3) % 7 == match weekday {
            Weekday::Mon => 0int,
            Weekday::Tue => 1int,
            Weekday::Wed => 2int,
            Weekday::Thu => 3int,
            Weekday::Fri => 4int,
            Weekday::Sat => 5int,
            Weekday::Sun => 6int,
        },
{
    lemma_anchor_is_most_recent(weekday, tod_ms, now_ms);
}

} // verus!
