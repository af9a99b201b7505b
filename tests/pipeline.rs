use asn_ranges::config::asn_list_from_yaml;
use asn_ranges::json::{parse_json, Json};
use asn_ranges::merge::{chunk_key_string, decimal_string, merge_records, ResultMap, CHUNK_SIZE};
use asn_ranges::record::{
    aggregate_url, not_found_record, record_from_body, record_from_document, record_from_response,
    AsnData, FetchError, IpVersion,
};

fn strings(items: &[&str]) -> Vec<String> {
    items.iter().map(|s| s.to_string()).collect()
}

fn record(name: &str, ranges: Vec<String>) -> AsnData {
    AsnData { display_name: name.to_string(), ip_ranges: ranges }
}

fn numbered_ranges(n: usize) -> Vec<String> {
    (0..n).map(|i| format!("10.{}.{}.0/24", i / 256, i % 256)).collect()
}

fn body_with(handle: &str, v4: &[String], v6: &[String]) -> String {
    let quote = |v: &[String]| v.iter().map(|s| format!("\"{}\"", s)).collect::<Vec<_>>().join(",");
    format!(
        "{{\"handle\":\"{}\",\"subnets\":{{\"ipv4\":[{}],\"ipv6\":[{}]}}}}",
        handle,
        quote(v4),
        quote(v6)
    )
}

#[test]
fn end_to_end_example() {
    let yaml = "asn: [\"64512\", \"64513\"]";
    let asns = asn_list_from_yaml(yaml).unwrap();
    assert_eq!(asns, strings(&["64512", "64513"]));
    let body = "{\"handle\":\"Example Org\",\"subnets\":{\"ipv4\":[\"10.0.0.0/8\"],\"ipv6\":[]}}";
    let first = record_from_response(&asns[0], Some(body), None).unwrap();
    let second = record_from_response(&asns[1], None, None).unwrap();
    let map = merge_records(vec![(asns[0].clone(), first), (asns[1].clone(), second)], None);
    assert_eq!(map.len(), 1);
    let got = map.get(&"64512".to_string()).unwrap();
    assert_eq!(got.display_name, "Example Org");
    assert_eq!(got.ip_ranges, strings(&["10.0.0.0/8"]));
    assert!(map.get(&"64513".to_string()).is_none());
}

#[test]
fn combined_mode_concatenates_v4_then_v6() {
    let body = body_with("Org", &strings(&["1.0.0.0/8", "2.0.0.0/8"]), &strings(&["2001:db8::/32"]));
    let rec = record_from_body(&body, None).unwrap();
    assert_eq!(rec.display_name, "Org");
    assert_eq!(rec.ip_ranges, strings(&["1.0.0.0/8", "2.0.0.0/8", "2001:db8::/32"]));
}

#[test]
fn filter_reads_only_the_named_list() {
    let body = body_with("Org", &strings(&["1.0.0.0/8"]), &strings(&["2001:db8::/32", "2001:db9::/32"]));
    let v4 = record_from_body(&body, Some(IpVersion::V4)).unwrap();
    assert_eq!(v4.ip_ranges, strings(&["1.0.0.0/8"]));
    let v6 = record_from_body(&body, Some(IpVersion::V6)).unwrap();
    assert_eq!(v6.ip_ranges, strings(&["2001:db8::/32", "2001:db9::/32"]));
}

#[test]
fn filter_ignores_a_bad_other_list() {
    let body = "{\"handle\":\"Org\",\"subnets\":{\"ipv4\":[\"1.0.0.0/8\"],\"ipv6\":[7]}}";
    let v4 = record_from_body(body, Some(IpVersion::V4)).unwrap();
    assert_eq!(v4.ip_ranges, strings(&["1.0.0.0/8"]));
    assert!(matches!(record_from_body(body, None), Err(FetchError::NonTextRange)));
    assert!(matches!(record_from_body(body, Some(IpVersion::V6)), Err(FetchError::NonTextRange)));
}

#[test]
fn missing_fields_default_to_empty() {
    let rec = record_from_body("{\"subnets\":{\"ipv4\":[\"1.0.0.0/8\"]}}", None).unwrap();
    assert_eq!(rec.display_name, "");
    assert_eq!(rec.ip_ranges, strings(&["1.0.0.0/8"]));
    let empty = record_from_body("{\"handle\":\"Org\"}", None).unwrap();
    assert_eq!(empty.display_name, "Org");
    assert!(empty.ip_ranges.is_empty());
    let not_text = record_from_body("{\"handle\":5,\"subnets\":[]}", Some(IpVersion::V4)).unwrap();
    assert_eq!(not_text.display_name, "");
    assert!(not_text.ip_ranges.is_empty());
}

#[test]
fn malformed_body_is_an_error() {
    assert!(matches!(record_from_body("not json", None), Err(FetchError::MalformedJson)));
    assert!(matches!(record_from_response("1", Some("{"), None), Err(FetchError::MalformedJson)));
}

#[test]
fn not_found_record_has_placeholder_name() {
    let rec = not_found_record("64513");
    assert_eq!(rec.display_name, "ASN 64513 not found");
    assert!(rec.ip_ranges.is_empty());
    let via_response = record_from_response("7", None, Some(IpVersion::V6)).unwrap();
    assert_eq!(via_response.display_name, "ASN 7 not found");
    assert!(via_response.ip_ranges.is_empty());
}

#[test]
fn url_follows_repository_layout() {
    assert_eq!(
        aggregate_url("13335"),
        "https://raw.githubusercontent.com/ipverse/asn-ip/master/as/13335/aggregated.json"
    );
}

#[test]
fn parse_json_builds_document() {
    match parse_json("{\"a\":[1,\"x\",null,true]}").unwrap() {
        Json::Object(members) => {
            assert_eq!(members.len(), 1);
            assert_eq!(members[0].0, "a");
            match &members[0].1 {
                Json::Array(items) => {
                    assert_eq!(items.len(), 4);
                    assert!(matches!(&items[0], Json::Number(n) if n == "1"));
                    assert!(matches!(&items[1], Json::Str(s) if s == "x"));
                    assert!(matches!(&items[2], Json::Null));
                    assert!(matches!(&items[3], Json::Bool(true)));
                }
                _ => panic!("expected an array"),
            }
        }
        _ => panic!("expected an object"),
    }
    assert!(parse_json("[1,").is_none());
}

#[test]
fn document_record_reads_handle() {
    let doc = parse_json("{\"handle\":\"H\",\"subnets\":{\"ipv6\":[\"::/0\"]}}").unwrap();
    let rec = record_from_document(&doc, None).unwrap();
    assert_eq!(rec.display_name, "H");
    assert_eq!(rec.ip_ranges, strings(&["::/0"]));
}

#[test]
fn small_record_keeps_one_key() {
    let ranges = numbered_ranges(CHUNK_SIZE);
    let map = merge_records(vec![("100".to_string(), record("Org", ranges.clone()))], None);
    assert_eq!(map.len(), 1);
    assert_eq!(map.get(&"100".to_string()).unwrap().ip_ranges, ranges);
    assert!(map.get(&"100_2".to_string()).is_none());
}

#[test]
fn large_record_is_chunked() {
    let ranges = numbered_ranges(4500);
    let map = merge_records(vec![("100".to_string(), record("Org", ranges.clone()))], None);
    assert_eq!(map.len(), 3);
    let a = map.get(&"100".to_string()).unwrap();
    let b = map.get(&"100_2".to_string()).unwrap();
    let c = map.get(&"100_3".to_string()).unwrap();
    assert_eq!(a.ip_ranges.len(), 2000);
    assert_eq!(b.ip_ranges.len(), 2000);
    assert_eq!(c.ip_ranges.len(), 500);
    assert_eq!(c.display_name, "Org");
    let mut joined = a.ip_ranges.clone();
    joined.extend(b.ip_ranges.iter().cloned());
    joined.extend(c.ip_ranges.iter().cloned());
    assert_eq!(joined, ranges);
}

#[test]
fn one_over_threshold_makes_two_chunks() {
    let ranges = numbered_ranges(2001);
    let map = merge_records(vec![("9".to_string(), record("X", ranges.clone()))], None);
    assert_eq!(map.len(), 2);
    assert_eq!(map.get(&"9".to_string()).unwrap().ip_ranges.len(), 2000);
    assert_eq!(map.get(&"9_2".to_string()).unwrap().ip_ranges, vec![ranges[2000].clone()]);
}

#[test]
fn exact_multiple_makes_no_empty_chunk() {
    let map = merge_records(vec![("9".to_string(), record("X", numbered_ranges(6000)))], None);
    assert_eq!(map.len(), 3);
    assert_eq!(map.get(&"9_3".to_string()).unwrap().ip_ranges.len(), 2000);
    assert!(map.get(&"9_4".to_string()).is_none());
}

#[test]
fn filtered_mode_never_chunks() {
    let ranges = numbered_ranges(4500);
    let map = merge_records(vec![("100".to_string(), record("Org", ranges.clone()))], Some(IpVersion::V4));
    assert_eq!(map.len(), 1);
    assert_eq!(map.get(&"100".to_string()).unwrap().ip_ranges, ranges);
}

#[test]
fn empty_records_are_dropped() {
    let results = vec![
        ("1".to_string(), record("A", vec![])),
        ("2".to_string(), record("B", strings(&["1.0.0.0/8"]))),
        ("3".to_string(), not_found_record("3")),
    ];
    let map = merge_records(results, Some(IpVersion::V6));
    assert_eq!(map.len(), 1);
    assert!(map.get(&"1".to_string()).is_none());
    assert!(map.get(&"3".to_string()).is_none());
    assert_eq!(map.get(&"2".to_string()).unwrap().display_name, "B");
}

#[test]
fn later_record_wins_on_equal_keys() {
    let results = vec![
        ("5".to_string(), record("old", strings(&["1.0.0.0/8"]))),
        ("5".to_string(), record("new", strings(&["2.0.0.0/8"]))),
    ];
    let map = merge_records(results, None);
    assert_eq!(map.len(), 1);
    assert_eq!(map.get(&"5".to_string()).unwrap().display_name, "new");
    assert_eq!(map.entries().len(), 1);
}

#[test]
fn result_map_insert_and_get() {
    let mut map = ResultMap::new();
    assert_eq!(map.len(), 0);
    map.insert("a".to_string(), record("A", strings(&["x"])));
    map.insert("b".to_string(), record("B", strings(&["y"])));
    map.insert("a".to_string(), record("A2", strings(&["z"])));
    assert_eq!(map.len(), 2);
    assert_eq!(map.get(&"a".to_string()).unwrap().display_name, "A2");
    map.merge_record("c".to_string(), record("C", vec![]), true);
    assert_eq!(map.len(), 2);
}

#[test]
fn decimal_and_chunk_keys() {
    assert_eq!(decimal_string(0), "0");
    assert_eq!(decimal_string(7), "7");
    assert_eq!(decimal_string(12345), "12345");
    assert_eq!(chunk_key_string(&"64512".to_string(), 0), "64512");
    assert_eq!(chunk_key_string(&"64512".to_string(), 1), "64512_2");
    assert_eq!(chunk_key_string(&"64512".to_string(), 10), "64512_11");
}

#[test]
fn yaml_list_without_key_is_empty() {
    assert_eq!(asn_list_from_yaml("other: [\"1\"]").unwrap(), Vec::<String>::new());
    assert_eq!(
        asn_list_from_yaml("asn:\n  - \"13335\"\n  - \"15169\"\nother: []\n").unwrap(),
        strings(&["13335", "15169"])
    );
    assert!(asn_list_from_yaml("asn: 5").is_none());
    assert!(asn_list_from_yaml("[1, 2").is_none());
}

#[test]
fn output_json_round_trips() {
    let results = vec![
        ("64512".to_string(), record("Example Org", strings(&["10.0.0.0/8", "2001:db8::/32"]))),
        ("64514".to_string(), record("Other", strings(&["192.0.2.0/24"]))),
    ];
    let map = merge_records(results, None);
    let mut object = serde_json::Map::new();
    for (key, data) in map.entries().iter() {
        let mut fields = serde_json::Map::new();
        fields.insert("display_name".to_string(), serde_json::Value::String(data.display_name.clone()));
        let ranges = data.ip_ranges.iter().map(|r| serde_json::Value::String(r.clone())).collect();
        fields.insert("ip_ranges".to_string(), serde_json::Value::Array(ranges));
        object.insert(key.clone(), serde_json::Value::Object(fields));
    }
    let text = serde_json::to_string_pretty(&serde_json::Value::Object(object)).unwrap();
    let back: serde_json::Value = serde_json::from_str(&text).unwrap();
    for (key, data) in map.entries().iter() {
        let entry = &back[key.as_str()];
        assert_eq!(entry["display_name"].as_str().unwrap(), data.display_name);
        let ranges: Vec<String> = entry["ip_ranges"]
            .as_array()
            .unwrap()
            .iter()
            .map(|v| v.as_str().unwrap().to_string())
            .collect();
        assert_eq!(ranges, data.ip_ranges);
    }
    assert_eq!(back.as_object().unwrap().len(), 2);
}
