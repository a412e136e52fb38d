use ssdm::duration::Duration;
use ssdm::keys::object_key;
use ssdm::products::{products, Product};
use ssdm::schedule::{Schedule, Weekday};
use ssdm::scheduler::{daemon_sleep_ms, due_checks_fit, due_indices, sleep_until_due_ms, waits_fit};
use ssdm::status::{apply_update, Status, StatusEntry};

const NOW: u64 = 1_700_000_000_000;

#[test]
fn everything_due_when_status_empty() {
    let all = products();
    let s = Status::new();
    let active = all.iter().filter(|p| p.active).count();
    assert_eq!(due_indices(&all, &s, NOW).len(), active);
    assert_eq!(sleep_until_due_ms(&all, &s, NOW, 3_600_000), 0);
}

#[test]
fn sleep_is_capped() {
    let all = products();
    let mut s = Status::new();
    for p in all.iter().filter(|p| p.active) {
        apply_update(&mut s, &object_key(p), "h", 1, NOW);
    }
    assert_eq!(sleep_until_due_ms(&all, &s, NOW, 60_000), 60_000, "clamped to cap");
}

// Right after a full pass nothing is due, and the daemon sleeps until the
// soonest cadence comes round again. The shortest cadence in the registry is the
// two-hour CelesTrak groups, as the registry and the README give it (the products
// test checks the same cadence), so that is the expected sleep here.
#[test]
fn sleeps_until_soonest_interval() {
    let all = products();
    let mut s = Status::new();
    for p in all.iter().filter(|p| p.active) {
        apply_update(&mut s, &object_key(p), "h", 1, NOW);
    }
    assert!(due_indices(&all, &s, NOW).is_empty(), "all just attempted => none due");
    assert_eq!(sleep_until_due_ms(&all, &s, NOW, 24 * 3_600_000), 2 * 3_600_000);
}

#[test]
fn weekly_failed_attempt_is_retried_via_last_checked() {
    let weekly = Product {
        category: "eop", source: "usno", name: "finals_test",
        url: "https://h/finals".into(), filename: "finals.all".into(),
        content_type: "text/plain", active: true, alias_name: None,
        info_url: None, cadence_label: None,
        schedule: Schedule::WeeklyAt {
            weekday: Weekday::Thu,
            time: Duration::from_secs(18 * 3600 + 15 * 60),
        },
    };
    let all = vec![weekly];
    let key = object_key(&all[0]);

    let mut s = Status::new();
    s.insert(key, StatusEntry {
        last_attempt: NOW,
        last_checked: NOW - 8 * 86_400_000,
        last_updated: NOW - 8 * 86_400_000,
        hash: "h".into(),
        size: 1,
    });

    let later = NOW + 3_600_000;
    assert_eq!(
        due_indices(&all, &s, later),
        vec![0],
        "a weekly product that only failed must be retried, not skipped for a week"
    );
}

#[test]
fn inactive_products_are_never_due() {
    let mut all = products();
    all[0].active = false;
    let s = Status::new();
    let due = due_indices(&all, &s, NOW);
    assert!(!due.contains(&0));
    assert_eq!(due.len(), 14);
    assert_eq!(due, (1..15).collect::<Vec<usize>>());
}

#[test]
fn daemon_sleeps_at_least_a_second() {
    assert_eq!(daemon_sleep_ms(0), 1000);
    assert_eq!(daemon_sleep_ms(999), 1000);
    assert_eq!(daemon_sleep_ms(1000), 1000);
    assert_eq!(daemon_sleep_ms(7_200_000), 7_200_000);
}

#[test]
fn registry_checks_fit_at_a_realistic_clock() {
    let all = products();
    let s = Status::new();
    assert!(due_checks_fit(&all, NOW));
    assert!(waits_fit(&all, &s, NOW));
}

#[test]
fn weekly_checks_do_not_fit_at_the_end_of_time() {
    let weekly = Product {
        category: "eop", source: "usno", name: "finals_test",
        url: "https://h/finals".into(), filename: "finals.all".into(),
        content_type: "text/plain", active: true, alias_name: None,
        info_url: None, cadence_label: None,
        schedule: Schedule::WeeklyAt { weekday: Weekday::Thu, time: Duration::from_secs(3600) },
    };
    let all = vec![weekly];
    let s = Status::new();
    assert!(!due_checks_fit(&all, u64::MAX - 10));
    assert!(!waits_fit(&all, &s, u64::MAX - 10));
    assert!(due_checks_fit(&all, NOW));
}
