use ssdm::duration::Duration;
use ssdm::schedule::{most_recent_anchor, Schedule, Weekday};

const DAY: u64 = 86_400_000;
const THU_1815: u64 = (18 * 3600 + 15 * 60) * 1000; // 65_700_000

fn weekly_thu() -> Schedule {
    Schedule::WeeklyAt { weekday: Weekday::Thu, time: Duration::from_millis(THU_1815) }
}

#[test]
fn epoch_day_zero_is_thursday() {
    assert_eq!(most_recent_anchor(Weekday::Thu, 0, 0), 0);
}

#[test]
fn every_matches_legacy_interval_semantics() {
    let s = Schedule::Every(Duration::from_secs(60));
    assert!(s.is_due(None, 1000), "absent => due");
    assert!(!s.is_due(Some(1000), 1000 + 59_000), "before interval => not due");
    assert!(s.is_due(Some(1000), 1000 + 60_000), "at interval => due");
}

#[test]
fn weekly_due_when_never_attempted() {
    assert!(weekly_thu().is_due(None, 3 * DAY + THU_1815));
}

#[test]
fn weekly_not_due_before_anchor_time_on_target_day() {
    let now = 7 * DAY + 3_600_000;
    assert!(!weekly_thu().is_due(Some(THU_1815), now));
}

#[test]
fn weekly_due_after_anchor_time_on_target_day() {
    let now = 7 * DAY + THU_1815 + 1;
    assert!(weekly_thu().is_due(Some(THU_1815), now));
}

#[test]
fn weekly_remaining_counts_down_to_next_thursday() {
    let now = 1 * DAY + THU_1815;
    assert_eq!(weekly_thu().remaining_ms(Some(THU_1815), now), 6 * DAY);
}

#[test]
fn weekly_remaining_zero_when_due() {
    let now = 7 * DAY + THU_1815 + 1;
    assert_eq!(weekly_thu().remaining_ms(Some(THU_1815), now), 0);
}

#[test]
fn nominal_period_every_is_self_weekly_is_seven_days() {
    assert_eq!(Schedule::Every(Duration::from_secs(7200)).nominal_period(),
               Duration::from_secs(7200));
    assert_eq!(weekly_thu().nominal_period(), Duration::from_secs(7 * 24 * 3600));
}

#[test]
fn anchor_does_not_underflow_for_early_epoch_non_thursday_target() {
    let now = 2 * DAY + 3_600_000;
    let anchor = most_recent_anchor(Weekday::Sun, 0, now);
    assert!(anchor <= now, "anchor must be at or before now");
}

#[test]
fn anchor_is_most_recent_weekday_instant() {
    // 2023-11-14 22:13 UTC was a Tuesday; the most recent Thursday 18:15 is 2023-11-09.
    let now: u64 = 1_700_000_000_000;
    let a = most_recent_anchor(Weekday::Thu, THU_1815, now);
    assert!(a <= now && now - a < 7 * DAY);
    assert_eq!(a % DAY, THU_1815);
    assert_eq!((a / DAY + 3) % 7, 3);
    assert_eq!(a, 1_699_553_700_000);
}

#[test]
fn every_remaining_counts_down() {
    let s = Schedule::Every(Duration::from_secs(60));
    assert_eq!(s.remaining_ms(None, 5), 0);
    assert_eq!(s.remaining_ms(Some(1000), 21_000), 40_000);
    assert_eq!(s.remaining_ms(Some(1000), 61_000), 0);
}

#[test]
fn given_counts_weekly_from_last_success() {
    let now = 7 * DAY + THU_1815 + 10;
    // attempted after the anchor (and failed): last success is a week old
    assert!(weekly_thu().is_due_given(Some(now - 5), Some(THU_1815), now));
    assert!(!weekly_thu().is_due(Some(now - 5), now));
    let e = Schedule::Every(Duration::from_secs(60));
    assert!(!e.is_due_given(Some(now - 5), Some(0), now), "every counts from the attempt");
    assert_eq!(weekly_thu().remaining_ms_given(Some(now - 5), Some(THU_1815), now), 0);
}

#[test]
fn due_once_remaining_has_passed() {
    let now = 1 * DAY + THU_1815;
    let left = weekly_thu().remaining_ms(Some(THU_1815), now);
    assert!(!weekly_thu().is_due(Some(THU_1815), now + left - 1));
    assert!(weekly_thu().is_due(Some(THU_1815), now + left));
    let e = Schedule::Every(Duration::from_secs(60));
    let left = e.remaining_ms(Some(1000), 21_000);
    assert!(e.is_due(Some(1000), 21_000 + left));
    assert!(!e.is_due(Some(1000), 21_000 + left - 1));
}

#[test]
fn remaining_is_the_wait_until_next_due() {
    const NOW: u64 = 1_700_000_000_000;
    let weekly = weekly_thu();
    let last = Some(NOW - 1000);
    let r = weekly.remaining_ms(last, NOW);
    assert!(r > 0 && r <= 7 * DAY);
    assert!(!weekly.is_due(last, NOW + r - 1), "not due a moment before the wait ends");
    assert!(weekly.is_due(last, NOW + r), "due when the wait ends");

    let every = Schedule::Every(Duration::from_secs(3600));
    let r = every.remaining_ms(last, NOW);
    assert_eq!(r, 3_600_000 - 1000);
    assert!(!every.is_due(last, NOW + r - 1));
    assert!(every.is_due(last, NOW + r));
}
