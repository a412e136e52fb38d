use ssdm::duration::Duration;
use ssdm::page::{esc_attr, fmt_time_of_day, humanize_interval, render_index_html, PAGE_HEAD, PAGE_TAIL};
use ssdm::products::Product;
use ssdm::schedule::{Schedule, Weekday};

fn sample() -> Vec<Product> {
    vec![
        Product {
            category: "eop", source: "iers", name: "c04_20u24",
            url: "https://example.test/x".into(),
            filename: "EOP_C04_one_file_1962-now.txt".into(),
            content_type: "text/plain", active: true, alias_name: Some("c04"),
            info_url: Some("https://iers.example/info"), cadence_label: None,
            schedule: Schedule::Every(Duration::from_secs(3600)),
        },
        Product {
            category: "eop", source: "iers", name: "c04_19u20",
            url: "https://example.test/old".into(),
            filename: "EOP_C04_one_file_1962-now.txt".into(),
            content_type: "text/plain", active: false, alias_name: None,
            info_url: None, cadence_label: None,
            schedule: Schedule::Every(Duration::from_secs(3600)),
        },
    ]
}

#[test]
fn lists_active_product_url() {
    let html = render_index_html("example.org", &sample());
    assert!(html.contains("https://example.org/eop/iers/c04_20u24/latest/EOP_C04_one_file_1962-now.txt"));
}

#[test]
fn lists_alias_url() {
    let html = render_index_html("example.org", &sample());
    assert!(html.contains("https://example.org/eop/iers/c04/latest/EOP_C04_one_file_1962-now.txt"));
}

#[test]
fn alias_row_uses_canonical_data_key() {
    let html = render_index_html("example.org", &sample());
    assert!(html.contains("https://example.org/eop/iers/c04/latest/EOP_C04_one_file_1962-now.txt"));
    assert!(!html.contains("data-key=\"eop/iers/c04/latest/"));
    assert!(html.contains("data-key=\"eop/iers/c04_20u24/latest/EOP_C04_one_file_1962-now.txt\""));
}

#[test]
fn references_brahe() {
    let html = render_index_html("example.org", &sample());
    assert!(html.contains("https://github.com/duncaneddy/brahe"));
}

#[test]
fn header_describes_astrodynamics_purpose() {
    let html = render_index_html("example.org", &sample());
    assert!(html.contains("astrodynamics"));
    assert!(html.contains("redundancy in parameter"));
}

#[test]
fn has_freshness_and_hash_columns() {
    let html = render_index_html("example.org", &sample());
    assert!(html.contains("Last updated"));
    assert!(html.contains("Last checked"));
    assert!(html.contains("Hash"));
}

#[test]
fn rows_carry_data_key_for_status_lookup() {
    let html = render_index_html("example.org", &sample());
    assert!(html.contains("data-key=\"eop/iers/c04_20u24/latest/EOP_C04_one_file_1962-now.txt\""));
}

#[test]
fn includes_copy_button_and_status_fetch() {
    let html = render_index_html("example.org", &sample());
    assert!(html.contains("class=\"copy\""));
    assert!(html.contains("/status.json"));
}

#[test]
fn has_size_column() {
    let html = render_index_html("example.org", &sample());
    assert!(html.contains(">Size<"), "Size column header present");
    assert!(html.contains("class=\"sizeval\""), "size cell populated client-side");
    assert!(html.contains("function fmtSize"), "human-readable size formatter present");
}

#[test]
fn url_has_copy_button() {
    let html = render_index_html("example.org", &sample());
    assert!(html.contains(
        "data-copy=\"https://example.org/eop/iers/c04_20u24/latest/EOP_C04_one_file_1962-now.txt\""
    ));
}

#[test]
fn humanizes_common_intervals() {
    assert_eq!(humanize_interval(Duration::from_secs(24 * 3600)), "daily");
    assert_eq!(humanize_interval(Duration::from_secs(7 * 24 * 3600)), "weekly");
    assert_eq!(humanize_interval(Duration::from_secs(6 * 3600)), "6h");
    assert_eq!(humanize_interval(Duration::from_secs(2 * 3600)), "2h");
    assert_eq!(humanize_interval(Duration::from_secs(3 * 24 * 3600)), "3d");
    assert_eq!(humanize_interval(Duration::from_secs(90 * 60)), "90m");
}

#[test]
fn renders_collapsible_section_with_display_name() {
    let html = render_index_html("example.org", &sample());
    assert!(html.contains("<details"), "sections are collapsible");
    assert!(html.contains("<summary"), "sections have a summary header");
    assert!(html.contains("Earth Orientation Parameters"), "category display name");
}

#[test]
fn renders_provider_subheading() {
    let html = render_index_html("example.org", &sample());
    assert!(html.contains("IERS"), "provider display name shown");
}

#[test]
fn shows_frequency_column_and_values() {
    let html = render_index_html("example.org", &sample());
    assert!(html.contains("Frequency"), "frequency column header");
    assert!(html.contains(">1h<"), "humanized interval rendered");
}

#[test]
fn frequency_prefers_cadence_label() {
    let mut items = sample();
    items[0].cadence_label = Some("Thursdays ~10:00 UTC");
    let html = render_index_html("example.org", &items);
    assert!(html.contains("Thursdays ~10:00 UTC"), "cadence_label overrides interval");
}

#[test]
fn product_cell_has_source_and_info_links() {
    let html = render_index_html("example.org", &sample());
    assert!(html.contains("href=\"https://example.test/x\""), "upstream source link");
    assert!(html.contains("href=\"https://iers.example/info\""), "info link when info_url set");
}

#[test]
fn rows_carry_interval_ms() {
    let html = render_index_html("example.org", &sample());
    assert!(html.contains("data-interval-ms=\"3600000\""), "interval emitted in ms");
}

#[test]
fn rows_have_status_dot_cell() {
    let html = render_index_html("example.org", &sample());
    assert!(html.contains("class=\"dot\""), "status dot present on rows");
}

#[test]
fn js_color_thresholds_present() {
    let html = render_index_html("example.org", &sample());
    assert!(html.contains("r<=1?0:(r<=3?1:2)"), "1x/3x staleness thresholds");
    assert!(html.contains(".lvl0"), "green level class");
    assert!(html.contains(".lvl1"), "amber level class");
    assert!(html.contains(".lvl2"), "red level class");
}

#[test]
fn last_checked_shows_attempt_time() {
    let html = render_index_html("example.org", &sample());
    assert!(html.contains("e.last_attempt"), "checked cell reads last_attempt");
}

#[test]
fn checked_color_tracks_last_success() {
    let html = render_index_html("example.org", &sample());
    assert!(html.contains("c=lvl(e.last_checked)"), "checked color from last_checked");
    assert!(html.contains("u=lvl(e.last_updated)"), "updated color from last_updated");
}

#[test]
fn status_dot_combines_checked_and_updated() {
    let html = render_index_html("example.org", &sample());
    assert!(html.contains("Math.max(c,u)"), "dot = worse of connectivity and freshness");
}

#[test]
fn footer_links_to_repo_and_issues() {
    let html = render_index_html("example.org", &sample());
    assert!(html.contains("https://github.com/duncaneddy/ssdm"), "repo link");
    assert!(html.contains("https://github.com/duncaneddy/ssdm/issues/new"), "open-an-issue link");
}

#[test]
fn weekly_schedule_renders_weekday_and_time() {
    let items = vec![Product {
        category: "eop", source: "usno", name: "finals2000a_all",
        url: "https://maia.usno.navy.mil/ser7/finals2000A.all".into(),
        filename: "finals2000A.all".into(),
        content_type: "text/plain", active: true, alias_name: None,
        info_url: None, cadence_label: None,
        schedule: Schedule::WeeklyAt {
            weekday: Weekday::Thu,
            time: Duration::from_secs(18 * 3600 + 15 * 60),
        },
    }];
    let html = render_index_html("example.org", &items);
    assert!(html.contains("Thursdays from 18:15 UTC"), "weekly frequency text");
    assert!(html.contains("data-interval-ms=\"604800000\""), "weekly nominal period = 7d");
}

#[test]
fn inactive_products_are_marked_discontinued() {
    let html = render_index_html("example.org", &sample());
    assert!(html.contains("data-key=\"eop/iers/c04_19u20/latest/EOP_C04_one_file_1962-now.txt\" data-interval-ms=\"3600000\" class=\"discontinued\">"));
}

#[test]
fn attribute_values_are_escaped() {
    assert_eq!(esc_attr("a&b\"c<d>e"), "a&amp;b&quot;c&lt;d>e");
    assert_eq!(esc_attr(""), "");
    assert_eq!(esc_attr("ⓘ&"), "ⓘ&amp;");
}

#[test]
fn time_of_day_is_zero_padded() {
    assert_eq!(fmt_time_of_day(Duration::from_secs(5 * 60)), "00:05");
    assert_eq!(fmt_time_of_day(Duration::from_secs(18 * 3600 + 15 * 60)), "18:15");
}

#[test]
fn page_starts_and_ends_with_document() {
    let html = render_index_html("example.org", &sample());
    assert!(html.starts_with("<!DOCTYPE html>\n<html lang=\"en\">"));
    assert!(html.ends_with("</script>\n</body>\n</html>\n"));
    // one category section, one provider table, three rows (product, alias, inactive)
    assert_eq!(html.matches("<details open>").count(), 1);
    assert_eq!(html.matches("<h2 class=\"prov\">IERS</h2>").count(), 1);
    assert_eq!(html.matches("<tr data-key=").count(), 3);
}

#[test]
fn sections_follow_first_seen_order() {
    let mut items = ssdm::products::products();
    items.truncate(6);
    let html = render_index_html("example.org", &items);
    let eop = html.find("Earth Orientation Parameters").unwrap();
    let sw = html.find("Space Weather").unwrap();
    let eph = html.find("Ephemeris").unwrap();
    assert!(eop < sw && sw < eph);
    let iers = html.find(">IERS<").unwrap();
    let usno = html.find(">USNO<").unwrap();
    assert!(iers < usno);
}

#[test]
fn escaped_attribute_reads_back() {
    let s = "x\"<&y&amp;";
    let t = esc_attr(s);
    assert!(!t.contains('"') && !t.contains('<'));
    let back = t.replace("&lt;", "<").replace("&quot;", "\"").replace("&amp;", "&");
    assert_eq!(back, s);
    assert_eq!(esc_attr("plain text/ok?a=1"), "plain text/ok?a=1");
}

#[test]
fn every_page_carries_head_and_tail() {
    for html in [render_index_html("example.org", &[]), render_index_html("m.example", &ssdm::products::products())] {
        assert!(html.starts_with(PAGE_HEAD));
        assert!(html.ends_with(PAGE_TAIL));
    }
}
