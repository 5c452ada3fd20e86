use ddns::huawei_cloud::{
    filter_records, find_zone_id, normalize_domain, plan_actions, recordsets_path, HuaWeiCloudDDNS,
    RecordSet, Zone,
};
use ddns::ipaddr::{DDNSIP, Ipv4DDNS};
use ddns::json::{json_escape, record_body};
use ddns::signer::Method;
use ddns::is_success_status;

fn record(id: &str, name: &str, values: &[&str]) -> RecordSet {
    RecordSet {
        id: id.to_string(),
        dns_type: "A".to_string(),
        name: name.to_string(),
        records: values.iter().map(|v| v.to_string()).collect(),
        ttl: 50,
    }
}

fn client() -> HuaWeiCloudDDNS {
    let ip = Ipv4DDNS::new("1.2.3.4".to_string(), "1.2.3.4".to_string()).ok().unwrap();
    HuaWeiCloudDDNS::new(DDNSIP::Ipv4(ip))
}

#[test]
fn domain_normalization() {
    assert_eq!(normalize_domain("example.com"), "example.com.");
    assert_eq!(normalize_domain("example.com."), "example.com.");
    assert_eq!(normalize_domain(""), ".");
}

#[test]
fn lookups_match_for_both_domain_forms() {
    let mut c = client();
    assert!(c.cached_records("z1", "example.com", "A").is_none());
    c.store_records("z1", "example.com", "A", vec![record("r1", "example.com.", &["5.6.7.8"])]);
    let bare = c.cached_records("z1", "example.com", "A").expect("bare form misses");
    let dotted = c.cached_records("z1", "example.com.", "A").expect("dotted form misses");
    assert_eq!(bare.len(), 1);
    assert_eq!(dotted.len(), 1);
    assert_eq!(bare[0].id, "r1");
    assert_eq!(dotted[0].id, "r1");
    assert!(c.cached_records("z1", "example.com", "AAAA").is_none());
    assert!(c.cached_records("z2", "example.com", "A").is_none());
}

#[test]
fn later_store_shadows_earlier() {
    let mut c = client();
    c.store_records("z1", "example.com", "A", vec![record("r1", "example.com.", &["5.6.7.8"])]);
    c.store_records("z1", "example.com.", "A", vec![record("r2", "example.com.", &["9.9.9.9"])]);
    let got = c.cached_records("z1", "example.com", "A").expect("entry missing");
    assert_eq!(got.len(), 1);
    assert_eq!(got[0].id, "r2");
}

#[test]
fn zone_selection_takes_first_suffix_match() {
    let zones = vec![
        Zone { name: "example.org.".to_string(), id: "z0".to_string() },
        Zone { name: "example.com.".to_string(), id: "z1".to_string() },
        Zone { name: "com.".to_string(), id: "z2".to_string() },
    ];
    assert_eq!(find_zone_id(&zones, "www.example.com."), Some("z1".to_string()));
    assert_eq!(find_zone_id(&zones, "example.org."), Some("z0".to_string()));
    assert_eq!(find_zone_id(&zones, "example.net."), None);
    assert_eq!(find_zone_id(&Vec::new(), "example.com."), None);
}

#[test]
fn record_filter_keeps_exact_names_only() {
    let sets = vec![
        record("r1", "example.com.", &["5.6.7.8"]),
        record("r2", "sub.example.com.", &["5.6.7.8"]),
        record("r3", "example.com.", &["9.9.9.9"]),
    ];
    let kept = filter_records(&sets, "example.com.");
    assert_eq!(kept.len(), 2);
    assert_eq!(kept[0].id, "r1");
    assert_eq!(kept[1].id, "r3");
}

#[test]
fn no_op_when_address_already_current() {
    let sets = vec![record("r1", "example.com.", &["1.2.3.4"])];
    let plan = plan_actions(&sets, "z1", "example.com.", "A", 50, "1.2.3.4");
    assert!(plan.is_empty());
}

#[test]
fn stale_records_each_get_one_update() {
    let sets = vec![
        record("r1", "example.com.", &["5.6.7.8"]),
        record("r2", "example.com.", &["1.2.3.4"]),
        record("r3", "example.com.", &["5.6.7.8", "1.2.3.4"]),
    ];
    let plan = plan_actions(&sets, "z1", "example.com.", "A", 50, "1.2.3.4");
    assert_eq!(plan.len(), 2);
    assert!(matches!(plan[0].method, Method::PUT));
    assert!(matches!(plan[1].method, Method::PUT));
    assert_eq!(plan[0].path, "/v2/zones/z1/recordsets/r1");
    assert_eq!(plan[1].path, "/v2/zones/z1/recordsets/r3");
}

#[test]
fn update_example_end_to_end() {
    let sets = vec![record("r1", "example.com.", &["5.6.7.8"])];
    let plan = plan_actions(&sets, "z1", "example.com.", "A", 50, "1.2.3.4");
    assert_eq!(plan.len(), 1);
    assert!(matches!(plan[0].method, Method::PUT));
    assert_eq!(plan[0].path, "/v2/zones/z1/recordsets/r1");
    assert_eq!(
        plan[0].body,
        "{\"name\":\"example.com.\",\"type\":\"A\",\"ttl\":50,\"records\":[\"1.2.3.4\"]}"
    );
}

#[test]
fn create_example_end_to_end() {
    let plan = plan_actions(&Vec::new(), "z1", "example.com.", "A", 50, "1.2.3.4");
    assert_eq!(plan.len(), 1);
    assert!(matches!(plan[0].method, Method::POST));
    assert_eq!(plan[0].path, "/v2/zones/z1/recordsets");
    assert_eq!(
        plan[0].body,
        "{\"name\":\"example.com.\",\"type\":\"A\",\"ttl\":50,\"records\":[\"1.2.3.4\"]}"
    );
}

#[test]
fn record_body_layout() {
    assert_eq!(
        record_body("example.com.", "A", 50, "1.2.3.4"),
        "{\"name\":\"example.com.\",\"type\":\"A\",\"ttl\":50,\"records\":[\"1.2.3.4\"]}"
    );
    assert_eq!(
        record_body("host\"x", "A", 1, "1.1.1.1"),
        "{\"name\":\"host\\\"x\",\"type\":\"A\",\"ttl\":1,\"records\":[\"1.1.1.1\"]}"
    );
}

#[test]
fn json_escaping() {
    assert_eq!(json_escape("plain"), "plain");
    assert_eq!(json_escape("a\"b\\c"), "a\\\"b\\\\c");
    assert_eq!(json_escape("a\nb\rc\td"), "a\\nb\\rc\\td");
    assert_eq!(json_escape("\u{8}\u{c}"), "\\b\\f");
    assert_eq!(json_escape("\u{1}\u{1f}"), "\\u0001\\u001f");
    assert_eq!(json_escape("unicode: \u{4e2d}"), "unicode: \u{4e2d}");
}

#[test]
fn recordsets_path_layout() {
    assert_eq!(recordsets_path("z1"), "/v2/zones/z1/recordsets");
}

#[test]
fn success_statuses() {
    assert!(!is_success_status(199));
    assert!(is_success_status(200));
    assert!(is_success_status(299));
    assert!(!is_success_status(300));
    assert!(!is_success_status(404));
}
