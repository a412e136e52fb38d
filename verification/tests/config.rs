use ssdm::config::{from_map, parse_u64, ConfigError};
use ssdm::duration::Duration;
use ssdm::strmap::StrMap;

fn base() -> StrMap<String> {
    let mut m = StrMap::new();
    m.insert("R2_ACCOUNT_ID".into(), "acct".into());
    m.insert("R2_ACCESS_KEY_ID".into(), "ak".into());
    m.insert("R2_SECRET_ACCESS_KEY".into(), "sk".into());
    m
}

#[test]
fn applies_defaults() {
    let c = from_map(&base()).unwrap();
    assert_eq!(c.r2_bucket, "ssdm-data");
    assert_eq!(c.r2_endpoint, "https://acct.r2.cloudflarestorage.com");
    assert_eq!(c.data_dir.as_str(), "/data");
    assert!(!c.run_on_start);
    assert_eq!(c.host_min_interval, Duration::from_secs(2));
    assert_eq!(c.stagger_jitter, Duration::from_secs(1));
}

#[test]
fn missing_required_is_error() {
    let mut m = base();
    m.remove("R2_SECRET_ACCESS_KEY");
    assert!(from_map(&m).is_err());
}

#[test]
fn overrides_are_honored() {
    let mut m = base();
    m.insert("R2_BUCKET".into(), "other".into());
    m.insert("R2_ENDPOINT".into(), "https://example.test".into());
    m.insert("RUN_ON_START".into(), "true".into());
    m.insert("HOST_MIN_INTERVAL_SECS".into(), "5".into());
    let c = from_map(&m).unwrap();
    assert_eq!(c.r2_bucket, "other");
    assert_eq!(c.r2_endpoint, "https://example.test");
    assert!(c.run_on_start);
    assert_eq!(c.host_min_interval, Duration::from_secs(5));
}

#[test]
fn missing_error_names_first_absent_variable() {
    let mut m = base();
    m.remove("R2_ACCOUNT_ID");
    m.remove("R2_SECRET_ACCESS_KEY");
    let e = from_map(&m).err().unwrap();
    assert_eq!(e, ConfigError::Missing("R2_ACCOUNT_ID".into()));
    assert_eq!(e.message(), "missing required env var R2_ACCOUNT_ID");
}

#[test]
fn non_integer_seconds_is_error() {
    let mut m = base();
    m.insert("STAGGER_JITTER_SECS".into(), "1.5".into());
    let e = from_map(&m).err().unwrap();
    assert_eq!(e, ConfigError::NotInteger("STAGGER_JITTER_SECS".into()));
    assert_eq!(e.message(), "STAGGER_JITTER_SECS must be an integer");
}

#[test]
fn run_on_start_accepts_one() {
    let mut m = base();
    m.insert("RUN_ON_START".into(), "1".into());
    assert!(from_map(&m).unwrap().run_on_start);
    m.insert("RUN_ON_START".into(), "yes".into());
    assert!(!from_map(&m).unwrap().run_on_start);
}

#[test]
fn parse_u64_follows_from_str() {
    assert_eq!(parse_u64("0"), Some(0));
    assert_eq!(parse_u64("+42"), Some(42));
    assert_eq!(parse_u64("18446744073709551615"), Some(u64::MAX));
    assert_eq!(parse_u64("18446744073709551616"), None);
    assert_eq!(parse_u64(""), None);
    assert_eq!(parse_u64("+"), None);
    assert_eq!(parse_u64("-1"), None);
    assert_eq!(parse_u64("12a"), None);
    for s in ["7", "+9", "007", "x", "99999999999999999999", " 1"] {
        assert_eq!(parse_u64(s), s.parse::<u64>().ok(), "{s}");
    }
}

#[test]
fn strmap_insert_replaces_and_remove_returns() {
    let mut m: StrMap<u32> = StrMap::new();
    m.insert("a".into(), 1);
    m.insert("b".into(), 2);
    m.insert("a".into(), 3);
    assert_eq!(m.len(), 2);
    assert_eq!(m.get("a"), Some(&3));
    assert_eq!(m.remove("a"), Some(3));
    assert_eq!(m.remove("a"), None);
    assert_eq!(m.get("b"), Some(&2));
    assert_eq!(m.len(), 1);
}
