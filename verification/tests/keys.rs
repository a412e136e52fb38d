use ssdm::duration::Duration;
use ssdm::keys::{alias_key, object_key, public_url};
use ssdm::products::Product;
use ssdm::schedule::Schedule;

fn c04() -> Product {
    Product {
        category: "eop", source: "iers", name: "c04_20u24",
        url: "https://example.test/x".into(),
        filename: "EOP_C04_one_file_1962-now.txt".into(),
        content_type: "text/plain", active: true, alias_name: Some("c04"),
        info_url: None, cadence_label: None,
        schedule: Schedule::Every(Duration::from_secs(3600)),
    }
}

fn finals() -> Product {
    Product {
        category: "eop", source: "iers", name: "finals_all",
        url: "https://example.test/y".into(),
        filename: "finals.all.iau2000.txt".into(),
        content_type: "text/plain", active: true, alias_name: None,
        info_url: None, cadence_label: None,
        schedule: Schedule::Every(Duration::from_secs(3600)),
    }
}

#[test]
fn object_key_uses_latest_layout() {
    assert_eq!(object_key(&c04()), "eop/iers/c04_20u24/latest/EOP_C04_one_file_1962-now.txt");
}

#[test]
fn alias_key_uses_alias_segment() {
    assert_eq!(alias_key(&c04()), Some("eop/iers/c04/latest/EOP_C04_one_file_1962-now.txt".to_string()));
}

#[test]
fn no_alias_means_none() {
    assert_eq!(alias_key(&finals()), None);
}

#[test]
fn public_url_prefixes_domain() {
    assert_eq!(
        public_url("eop/iers/c04/latest/EOP_C04_one_file_1962-now.txt"),
        "https://simplespacedata.org/eop/iers/c04/latest/EOP_C04_one_file_1962-now.txt"
    );
}

#[test]
fn alias_key_differs_from_object_key_in_segment_only() {
    let p = c04();
    let a = alias_key(&p).unwrap();
    let o = object_key(&p);
    assert_ne!(a, o);
    assert_eq!(a.replacen("/c04/", "/c04_20u24/", 1), o);
}

#[test]
fn url_on_other_domain() {
    assert_eq!(ssdm::keys::url_on("example.org", "a/b"), "https://example.org/a/b");
}
