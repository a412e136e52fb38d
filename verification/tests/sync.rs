use ssdm::cli::select_for_sync;
use ssdm::duration::Duration;
use ssdm::message::{failure_entry, failure_summary, ingest_message, producer_messages};
use ssdm::products::{products, Product};
use ssdm::schedule::Schedule;
use ssdm::status::{content_hash, Status};
use ssdm::sync::{apply_batch, persist_targets, record_failed, record_fetched, Fetched, SyncSummary};

fn product(name: &'static str, url: &str) -> Product {
    Product {
        category: "catalog", source: "celestrak", name,
        url: url.into(), filename: format!("{name}.json"),
        content_type: "application/json", active: true, alias_name: None,
        info_url: None, cadence_label: None,
        schedule: Schedule::Every(Duration::from_secs(3600)),
    }
}

#[test]
fn changed_uploads_and_records_status() {
    let p = product("active", "https://h/active");
    let mut status = Status::new();
    let mut sum = SyncSummary::new();
    let key = ssdm::keys::object_key(&p);
    let changed = record_fetched(&mut status, &mut sum, &key, b"data", 1000);
    assert!(changed);
    assert_eq!((sum.checked, sum.changed, sum.failed), (1, 1, 0));
    let targets = persist_targets(&p);
    assert!(targets.iter().any(|k| k.contains("active/latest/active.json")));
    assert!(!status.is_empty());
    assert_eq!(status.get(&key).unwrap().hash, content_hash(b"data"));
}

#[test]
fn unchanged_skips_data_upload() {
    let p = product("active", "https://h/active");
    let key = ssdm::keys::object_key(&p);
    let mut status = Status::new();
    let mut first = SyncSummary::new();
    record_fetched(&mut status, &mut first, &key, b"data", 1000);
    let mut sum = SyncSummary::new();
    let changed = record_fetched(&mut status, &mut sum, &key, b"data", 2000);
    assert!(!changed);
    assert_eq!((sum.checked, sum.changed, sum.failed), (1, 0, 0));
}

#[test]
fn failure_preserves_prior_and_continues() {
    let good = product("active", "https://h/active");
    let bad = product("bad", "https://h/bad");
    let mut status = Status::new();
    let mut sum = SyncSummary::new();
    record_fetched(&mut status, &mut sum, &ssdm::keys::object_key(&good), b"data", 1000);
    record_failed(&mut status, &mut sum, &ssdm::keys::object_key(&bad), 1000);
    assert_eq!((sum.checked, sum.changed, sum.failed), (1, 1, 1));
    assert!(status.keys().iter().any(|k| k.contains("active/latest")));
    assert_eq!(sum.failure_message().unwrap(), "1 fetch(es) failed (checked=1, changed=1)");
}

#[test]
fn clean_pass_has_no_failure_message() {
    assert_eq!(SyncSummary::new().failure_message(), None);
}

#[test]
fn alias_products_are_written_twice() {
    let items = products();
    let c04 = items.iter().find(|p| p.name == "c04_20u24").unwrap();
    assert_eq!(
        persist_targets(c04),
        vec![
            "eop/iers/c04_20u24/latest/EOP_C04_one_file_1962-now.txt".to_string(),
            "eop/iers/c04/latest/EOP_C04_one_file_1962-now.txt".to_string(),
        ]
    );
}

#[test]
fn batch_reapplies_in_order() {
    let mut status = Status::new();
    let batch = vec![
        Fetched { key: "a".into(), hash: "h1".into(), size: 1 },
        Fetched { key: "a".into(), hash: "h1".into(), size: 1 },
        Fetched { key: "b".into(), hash: "h2".into(), size: 2 },
    ];
    assert_eq!(apply_batch(&mut status, &batch, 7), vec![true, false, true]);
    assert_eq!(status.len(), 2);
}

#[test]
fn producer_enqueues_one_message_per_active_product() {
    let mut items = products();
    items[2].active = false;
    let msgs = producer_messages(&items, 1_700_000_000_000);
    assert_eq!(msgs.len(), 14);
    assert_eq!(msgs[1].key, "eop/iers/c04_20u24/latest/EOP_C04_one_file_1962-now.txt");
    assert_eq!(msgs[1].alias_key.as_deref(), Some("eop/iers/c04/latest/EOP_C04_one_file_1962-now.txt"));
    assert_eq!(msgs[1].enqueued_at, 1_700_000_000_000);
    assert_eq!(msgs[2], ingest_message(&items[3], 1_700_000_000_000));
}

#[test]
fn ingest_failures_are_summarized() {
    assert_eq!(failure_summary(&[]), None);
    let f = vec![failure_entry("a", "boom"), failure_entry("b", "HTTP 500")];
    assert_eq!(failure_summary(&f).unwrap(), "2 product(s) failed: a (boom); b (HTTP 500)");
}

#[test]
fn manual_selection_by_name_all_or_due() {
    let items = products();
    let status = Status::new();
    let names = vec!["starlink".to_string(), "finals_all".to_string()];
    assert_eq!(select_for_sync(&items, &names, false, &status, 1_700_000_000_000), Ok(vec![0, 9]));
    let bad = vec!["starlink".to_string(), "nope".to_string(), "zzz".to_string()];
    assert_eq!(
        select_for_sync(&items, &bad, true, &status, 1_700_000_000_000),
        Err("unknown product name(s): nope, zzz".to_string())
    );
    assert_eq!(select_for_sync(&items, &[], true, &status, 0).unwrap().len(), 15);
    assert_eq!(select_for_sync(&items, &[], false, &status, 1_700_000_000_000).unwrap().len(), 15);
}
