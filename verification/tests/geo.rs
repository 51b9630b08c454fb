use csgo_scanner::geo::{batch_body, batches, record_reply, BATCH_SIZE, BATCH_URL};
use std::collections::HashMap;

#[test]
fn batches_hold_at_most_one_hundred_in_order() {
    let ips: Vec<u32> = (0..250).collect();
    let b = batches(&ips);
    assert_eq!(b.len(), 3);
    assert_eq!(b[0], (0..100).collect::<Vec<u32>>());
    assert_eq!(b[1], (100..200).collect::<Vec<u32>>());
    assert_eq!(b[2], (200..250).collect::<Vec<u32>>());
    assert!(batches(&Vec::new()).is_empty());
    assert_eq!(batches(&(0..100).collect()).len(), 1);
    assert_eq!(BATCH_SIZE, 100);
    let std_chunks: Vec<Vec<u32>> = ips.chunks(100).map(|c| c.to_vec()).collect();
    assert_eq!(b, std_chunks);
}

#[test]
fn body_is_json_array_of_addresses() {
    let ips = vec![0x01020304u32, 0x0A000001];
    assert_eq!(batch_body(&ips), "[\"1.2.3.4\",\"10.0.0.1\"]");
    assert_eq!(batch_body(&Vec::new()), "[]");
    assert_eq!(BATCH_URL, "http://ip-api.com/batch?fields=countryCode,query");
}

#[test]
fn reply_records_country_codes() {
    let mut out = HashMap::new();
    let asked = vec![0x01020304u32, 0x0A000001];
    record_reply(
        &mut out,
        &asked,
        r#"[{"countryCode":"DE","query":"1.2.3.4"},{"query":"5.6.7.8"},{"countryCode":"FR","query":"nope"},{"countryCode":"US","query":"10.0.0.1"},{"countryCode":"GB","query":"1.2.3.4"}]"#,
    );
    assert_eq!(out.len(), 2);
    assert_eq!(out.get(&0x01020304), Some(&"GB".to_string()));
    assert_eq!(out.get(&0x0A000001), Some(&"US".to_string()));
}

#[test]
fn reply_that_is_no_array_records_nothing() {
    let mut out = HashMap::new();
    out.insert(7u32, "NL".to_string());
    let asked = vec![0x01020304u32];
    record_reply(&mut out, &asked, r#"{"countryCode":"DE","query":"1.2.3.4"}"#);
    record_reply(&mut out, &asked, "not json");
    assert_eq!(out.len(), 1);
    assert_eq!(out.get(&7), Some(&"NL".to_string()));
}

#[test]
fn reply_naming_an_address_not_asked_records_only_the_asked() {
    let mut out = HashMap::new();
    let asked = vec![0x01020304u32];
    record_reply(
        &mut out,
        &asked,
        r#"[{"countryCode":"DE","query":"1.2.3.4"},{"countryCode":"US","query":"9.9.9.9"}]"#,
    );
    assert_eq!(out.len(), 1);
    assert_eq!(out.get(&0x01020304), Some(&"DE".to_string()));
    assert_eq!(out.get(&0x09090909), None);
}
