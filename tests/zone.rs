use awsdyndns::lookup::{current_ip_from_response, ip_member, LookupError};
use awsdyndns::paths::config_dir;
use awsdyndns::records::{
    address_records_of, get_first_resource_from_record, record_set_to_internal_record, Record,
    RecordError, ResourceRecord, ResourceRecordSet,
};
use awsdyndns::text::{starts_with, unescape_wildcards};

fn set(name: &str, type_: &str, values: Option<&[&str]>) -> ResourceRecordSet {
    ResourceRecordSet {
        name: name.to_string(),
        type_: type_.to_string(),
        ttl: Some(300),
        resource_records: values
            .map(|vs| vs.iter().map(|v| ResourceRecord { value: v.to_string() }).collect()),
    }
}

#[test]
fn wildcard_escapes_are_turned_back() {
    assert_eq!(unescape_wildcards("\\052.example.com."), "*.example.com.");
    assert_eq!(unescape_wildcards("a\\052b\\052"), "a*b*");
    assert_eq!(unescape_wildcards("\\05"), "\\05");
    assert_eq!(unescape_wildcards("\\\\052"), "\\*");
    assert_eq!(unescape_wildcards(""), "");
    assert_eq!(unescape_wildcards("héllo.example"), "héllo.example");
}

#[test]
fn prefix_test_on_names() {
    assert!(starts_with("home.example.com", "home"));
    assert!(starts_with("home", ""));
    assert!(starts_with("home", "home"));
    assert!(!starts_with("hom", "home"));
    assert!(!starts_with("house", "home"));
}

#[test]
fn first_value_of_a_record_set() {
    let s = set("a.example.com.", "A", Some(&["1.2.3.4", "5.6.7.8"]));
    assert_eq!(get_first_resource_from_record(&s), Ok("1.2.3.4".to_string()));
    let empty = set("a.example.com.", "A", Some(&[]));
    assert_eq!(get_first_resource_from_record(&empty), Err(RecordError::NoResource));
    let none = set("a.example.com.", "A", None);
    assert_eq!(get_first_resource_from_record(&none), Err(RecordError::NoResource));
}

#[test]
fn record_set_becomes_address_record() {
    let s = set("\\052.example.com.", "A", Some(&["1.2.3.4"]));
    assert_eq!(
        record_set_to_internal_record(&s),
        Ok(Record { domain: "*.example.com.".to_string(), resource: "1.2.3.4".to_string() })
    );
    let none = set("a.example.com.", "A", None);
    assert_eq!(record_set_to_internal_record(&none), Err(RecordError::NoResource));
}

#[test]
fn listing_keeps_address_records_with_values() {
    let listing = vec![
        set("example.com.", "NS", Some(&["ns1.example.net."])),
        set("b.example.com.", "A", Some(&["5.6.7.8"])),
        set("c.example.com.", "A", None),
        set("\\052.example.com.", "A", Some(&["1.2.3.4"])),
        set("d.example.com.", "AAAA", Some(&["::1"])),
        set("e.example.com.", "A", Some(&[])),
    ];
    let records = address_records_of(&listing);
    assert_eq!(
        records,
        vec![
            Record { domain: "b.example.com.".to_string(), resource: "5.6.7.8".to_string() },
            Record { domain: "*.example.com.".to_string(), resource: "1.2.3.4".to_string() },
        ]
    );
    assert!(address_records_of(&vec![]).is_empty());
}

#[test]
fn lookup_answer_gives_the_address() {
    assert_eq!(current_ip_from_response("{\"ip\":\"1.2.3.4\"}"), Ok("1.2.3.4".to_string()));
    assert_eq!(
        current_ip_from_response("{\"other\":\"x\", \"ip\": \"203.0.113.9\"}"),
        Ok("203.0.113.9".to_string())
    );
}

#[test]
fn lookup_answer_without_address_fails() {
    assert_eq!(current_ip_from_response("{\"ipv4\":\"1.2.3.4\"}"), Err(LookupError::MissingIp));
    assert_eq!(current_ip_from_response("{}"), Err(LookupError::MissingIp));
}

#[test]
fn malformed_lookup_answer_fails() {
    assert_eq!(current_ip_from_response("1.2.3.4"), Err(LookupError::InvalidResponse));
    assert_eq!(current_ip_from_response("{\"ip\": 5}"), Err(LookupError::InvalidResponse));
    assert_eq!(current_ip_from_response(""), Err(LookupError::InvalidResponse));
}

#[test]
fn config_dir_prefers_xdg() {
    assert_eq!(
        config_dir(Some("/etc/xdg".to_string()), Some("/home/u".to_string())),
        Some("/etc/xdg".to_string())
    );
    assert_eq!(config_dir(None, Some("/home/u".to_string())), Some("/home/u/.config".to_string()));
    assert_eq!(config_dir(None, None), None);
}

#[test]
fn first_ip_member_is_taken() {
    let pair = |k: &str, v: &str| (k.to_string(), v.to_string());
    let members = vec![pair("x", "0"), pair("ip", "1.1.1.1"), pair("ip", "2.2.2.2")];
    assert_eq!(ip_member(&members), Some("1.1.1.1".to_string()));
    assert_eq!(ip_member(&vec![pair("ipv6", "::1"), pair("i", "p")]), None);
    assert_eq!(ip_member(&vec![]), None);
}
