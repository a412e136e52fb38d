use ssdm::duration::Duration;
use ssdm::products::{products, validate_registry, Product};
use ssdm::schedule::Schedule;

#[test]
fn registry_has_15_active_products() {
    let items = products();
    assert_eq!(items.iter().filter(|p| p.active).count(), 15);
}

#[test]
fn usno_finals2000a_entries_present() {
    let items = products();

    let all = items.iter().find(|p| p.name == "finals2000a_all").expect("finals2000a_all present");
    assert_eq!(all.category, "eop");
    assert_eq!(all.source, "usno");
    assert_eq!(all.filename, "finals2000A.all");
    assert_eq!(all.url, "https://maia.usno.navy.mil/ser7/finals2000A.all");
    assert_eq!(all.schedule, Schedule::Every(Duration::from_secs(7 * 24 * 3600)));
    assert_eq!(all.alias_name, None);

    let daily = items.iter().find(|p| p.name == "finals2000a_daily").expect("finals2000a_daily present");
    assert_eq!(daily.category, "eop");
    assert_eq!(daily.source, "usno");
    assert_eq!(daily.filename, "finals2000A.daily");
    assert_eq!(daily.url, "https://maia.usno.navy.mil/ser7/finals2000A.daily");
    assert_eq!(daily.schedule, Schedule::Every(Duration::from_secs(24 * 3600)));
    assert_eq!(daily.alias_name, None);
}

#[test]
fn c04_versioned_entry_aliases_to_c04() {
    let items = products();
    let c04 = items.iter().find(|p| p.name == "c04_20u24").expect("c04_20u24 present");
    assert_eq!(c04.category, "eop");
    assert_eq!(c04.source, "iers");
    assert_eq!(c04.filename, "EOP_C04_one_file_1962-now.txt");
    assert_eq!(c04.alias_name, Some("c04"));
    assert!(c04.url.contains("EOP_20u24_C04_one_file_1962-now.txt"));
}

#[test]
fn celestrak_groups_are_json_under_catalog() {
    let items = products();
    let starlink = items.iter().find(|p| p.name == "starlink").expect("starlink present");
    assert_eq!(starlink.category, "catalog");
    assert_eq!(starlink.source, "celestrak");
    assert_eq!(starlink.filename, "starlink.json");
    assert_eq!(starlink.content_type, "application/json");
    assert!(starlink.url.contains("GROUP=starlink"));
    assert!(starlink.url.contains("FORMAT=json"));
}

#[test]
fn default_registry_passes_validation() {
    assert!(validate_registry(&products()).is_ok());
}

#[test]
fn products_have_expected_schedules() {
    let items = products();
    let get = |name: &str| &items.iter().find(|p| p.name == name).unwrap().schedule;
    assert_eq!(get("finals_all"), &Schedule::Every(Duration::from_secs(24 * 3600)));
    assert_eq!(get("c04_20u24"), &Schedule::Every(Duration::from_secs(7 * 24 * 3600)));
    assert_eq!(get("sw_all"), &Schedule::Every(Duration::from_secs(6 * 3600)));
    assert_eq!(get("starlink"), &Schedule::Every(Duration::from_secs(2 * 3600)));
}

fn aliased(name: &'static str, active: bool) -> Product {
    Product { category: "eop", source: "iers", name, url: "u".into(),
        filename: "f".into(), content_type: "text/plain", active, alias_name: Some("c04"),
        info_url: None, cadence_label: None,
        schedule: Schedule::Every(Duration::from_secs(3600)) }
}

#[test]
fn duplicate_active_alias_is_rejected() {
    let dupes = vec![aliased("c04_a", true), aliased("c04_b", true)];
    assert!(validate_registry(&dupes).is_err());
}

#[test]
fn duplicate_alias_error_names_the_slot() {
    let dupes = vec![aliased("c04_a", true), aliased("c04_b", true)];
    assert_eq!(validate_registry(&dupes), Err("duplicate active alias: eop/iers/c04".to_string()));
}

#[test]
fn inactive_alias_holder_frees_the_slot() {
    let items = vec![aliased("c04_19u20", false), aliased("c04_20u24", true)];
    assert_eq!(validate_registry(&items), Ok(()));
}

#[test]
fn known_products_carry_info_urls() {
    let items = products();
    let finals = items.iter().find(|p| p.name == "finals_all").unwrap();
    assert_eq!(finals.info_url, Some("https://www.iers.org/IERS/EN/DataProducts/EarthOrientationData/eop.html"));
    let starlink = items.iter().find(|p| p.name == "starlink").unwrap();
    assert_eq!(starlink.info_url, Some("https://celestrak.org/NORAD/documentation/gp-data-formats.php"));
    assert_eq!(finals.cadence_label, None);
}

#[test]
fn celestrak_group_urls_name_the_group() {
    let items = products();
    let slugs = ["active", "stations", "visual", "last-30-days", "starlink", "gnss", "gps-ops", "geo", "weather", "science"];
    assert_eq!(items.len(), 15);
    for (i, slug) in slugs.iter().enumerate() {
        let p = &items[5 + i];
        assert_eq!(p.name, *slug);
        assert_eq!(p.url, format!("https://celestrak.org/NORAD/elements/gp.php?GROUP={slug}&FORMAT=json"));
        assert_eq!(p.filename, format!("{slug}.json"));
    }
}
