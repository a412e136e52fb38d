use ssdm::duration::Duration;
use ssdm::status::{apply_update, content_hash, is_due, record_attempt, Status};

#[test]
fn hash_matches_known_md5() {
    assert_eq!(content_hash(b""), "d41d8cd98f00b204e9800998ecf8427e");
    assert_eq!(content_hash(b"abc"), "900150983cd24fb0d6963f7d28e17f72");
}

#[test]
fn new_key_writes_data_and_sets_both_times() {
    let mut s = Status::new();
    let wrote = apply_update(&mut s, "k", "hash1", 10, 1000);
    assert!(wrote);
    let e = s.get("k").unwrap();
    assert_eq!(e.last_checked, 1000);
    assert_eq!(e.last_updated, 1000);
    assert_eq!(e.hash, "hash1");
    assert_eq!(e.size, 10);
}

#[test]
fn unchanged_hash_bumps_checked_only_and_skips_write() {
    let mut s = Status::new();
    apply_update(&mut s, "k", "hash1", 10, 1000);
    let wrote = apply_update(&mut s, "k", "hash1", 10, 5000);
    assert!(!wrote, "unchanged content must not re-write");
    let e = s.get("k").unwrap();
    assert_eq!(e.last_checked, 5000);
    assert_eq!(e.last_updated, 1000, "last_updated frozen when unchanged");
}

#[test]
fn changed_hash_writes_and_bumps_updated() {
    let mut s = Status::new();
    apply_update(&mut s, "k", "hash1", 10, 1000);
    let wrote = apply_update(&mut s, "k", "hash2", 12, 5000);
    assert!(wrote);
    let e = s.get("k").unwrap();
    assert_eq!(e.last_checked, 5000);
    assert_eq!(e.last_updated, 5000);
    assert_eq!(e.hash, "hash2");
}

#[test]
fn apply_update_sets_last_attempt() {
    let mut s = Status::new();
    apply_update(&mut s, "k", "h", 1, 1000);
    assert_eq!(s.get("k").unwrap().last_attempt, 1000);
}

#[test]
fn record_attempt_bumps_only_last_attempt() {
    let mut s = Status::new();
    apply_update(&mut s, "k", "h", 1, 1000);
    record_attempt(&mut s, "k", 5000);
    let e = s.get("k").unwrap();
    assert_eq!(e.last_attempt, 5000);
    assert_eq!(e.last_checked, 1000, "success fields untouched on a bare attempt");
    assert_eq!(e.hash, "h");
}

#[test]
fn record_attempt_creates_minimal_entry_when_absent() {
    let mut s = Status::new();
    record_attempt(&mut s, "new", 5000);
    let e = s.get("new").unwrap();
    assert_eq!(e.last_attempt, 5000);
    assert_eq!(e.last_checked, 0);
    assert!(e.hash.is_empty());
}

#[test]
fn is_due_when_absent_or_interval_elapsed() {
    let mut s = Status::new();
    assert!(is_due(&s, "k", Duration::from_secs(60), 1000), "absent => due");
    apply_update(&mut s, "k", "h", 1, 1000);
    assert!(!is_due(&s, "k", Duration::from_secs(60), 1000 + 59_000));
    assert!(is_due(&s, "k", Duration::from_secs(60), 1000 + 60_000));
}

#[test]
fn keys_and_entries_cover_the_map() {
    let mut s = Status::new();
    assert!(s.is_empty());
    apply_update(&mut s, "b", "h", 1, 1);
    apply_update(&mut s, "a", "h", 1, 1);
    apply_update(&mut s, "b", "h2", 2, 2);
    assert_eq!(s.len(), 2);
    assert!(!s.is_empty());
    let mut ks = s.keys();
    ks.sort();
    assert_eq!(ks, vec!["a".to_string(), "b".to_string()]);
    let entries = s.into_entries();
    assert_eq!(entries.len(), 2);
    assert!(entries.iter().any(|(k, e)| k == "b" && e.hash == "h2" && e.size == 2));
}

#[test]
fn failed_attempt_waits_for_the_next_interval() {
    let mut s = Status::new();
    record_attempt(&mut s, "k", 1000);
    assert!(!is_due(&s, "k", Duration::from_secs(60), 1000));
    assert!(is_due(&s, "k", Duration::from_secs(60), 61_000));
}
