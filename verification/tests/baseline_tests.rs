use fim::baseline::{delete_hash, get_hash, hash_mismatch_checker, record_of, records_from_doc, scan_file_step, scan_file_step_now, write_hash, HashRecord};
use fim::json::{text_member, JsonDoc, JsonField, JsonItem, JsonMember};
use serde_json::Value;

fn member(key: &str, value: &str) -> JsonMember {
    JsonMember { key: key.to_string(), value: JsonField::Text(value.to_string()) }
}

fn entry(hash: &str, path: &str, ts: &str) -> JsonItem {
    JsonItem::Object(vec![member("hash", hash), member("file_path", path), member("timestamp", ts)])
}

fn doc_of(records: &[HashRecord]) -> JsonDoc {
    JsonDoc::Array(records.iter().map(|r| entry(&r.hash, &r.file_path, &r.timestamp)).collect())
}

fn paths(doc: &JsonDoc) -> Vec<Option<String>> {
    match doc {
        JsonDoc::Array(items) => items.iter().map(|i| text_member(i, "file_path").cloned()).collect(),
        _ => panic!("not an array"),
    }
}

#[test]
fn get_hash_finds_first_entry_for_path() {
    let doc = JsonDoc::Array(vec![entry("h1", "/a", "t1"), entry("h2", "/b", "t2"), entry("h3", "/a", "t3")]);
    let found = get_hash(&doc, "/a").expect("entry");
    assert_eq!(text_member(found, "hash").map(|s| s.as_str()), Some("h1"));
    assert!(get_hash(&doc, "/c").is_none());
}

#[test]
fn get_hash_skips_non_objects_and_non_string_paths() {
    let doc = JsonDoc::Array(vec![
        JsonItem::Other(Value::from(3)),
        JsonItem::Object(vec![JsonMember { key: "file_path".into(), value: JsonField::Other(Value::Null) }]),
        entry("h", "/a", "t"),
    ]);
    let found = get_hash(&doc, "/a").expect("entry");
    assert_eq!(text_member(found, "hash").map(|s| s.as_str()), Some("h"));
}

#[test]
fn get_hash_in_non_array_finds_nothing() {
    let doc = JsonDoc::Object(vec![member("file_path", "/a")]);
    assert!(get_hash(&doc, "/a").is_none());
}

#[test]
fn mismatch_checker_cases() {
    let doc = JsonDoc::Array(vec![
        entry("abc", "/a", "t"),
        JsonItem::Object(vec![member("file_path", "/nohash")]),
    ]);
    assert!(hash_mismatch_checker(Some(&doc), "abc", "/a"));
    assert!(!hash_mismatch_checker(Some(&doc), "xyz", "/a"));
    assert!(hash_mismatch_checker(Some(&doc), "xyz", "/missing"));
    assert!(hash_mismatch_checker(Some(&doc), "xyz", "/nohash"));
    assert!(hash_mismatch_checker(None, "xyz", "/a"));
}

#[test]
fn write_hash_appends_to_existing_records() {
    let doc = JsonDoc::Array(vec![entry("h1", "/a", "t1")]);
    let records = write_hash(Some(&doc), "h2", "/b", "t2");
    assert_eq!(records.len(), 2);
    assert_eq!((records[0].hash.as_str(), records[0].file_path.as_str()), ("h1", "/a"));
    assert_eq!(
        (records[1].hash.as_str(), records[1].file_path.as_str(), records[1].timestamp.as_str()),
        ("h2", "/b", "t2")
    );
}

#[test]
fn write_hash_starts_over_when_baseline_is_not_records() {
    let doc = JsonDoc::Array(vec![entry("h1", "/a", "t1"), JsonItem::Object(vec![member("file_path", "/x")])]);
    let records = write_hash(Some(&doc), "h2", "/b", "t2");
    assert_eq!(records.len(), 1);
    assert_eq!(records[0].file_path, "/b");
    let records = write_hash(None, "h3", "/c", "t3");
    assert_eq!(records.len(), 1);
    assert_eq!(records[0].hash, "h3");
}

#[test]
fn record_of_reads_objects_and_three_string_arrays() {
    let r = record_of(&entry("h", "/p", "t")).expect("record");
    assert_eq!((r.hash.as_str(), r.file_path.as_str(), r.timestamp.as_str()), ("h", "/p", "t"));
    let list = JsonItem::List(vec![
        JsonField::Text("h".into()),
        JsonField::Text("/p".into()),
        JsonField::Text("t".into()),
    ]);
    assert!(record_of(&list).is_some());
    let short = JsonItem::List(vec![JsonField::Text("h".into())]);
    assert!(record_of(&short).is_none());
    assert!(record_of(&JsonItem::Other(Value::Null)).is_none());
}

#[test]
fn records_round_trip() {
    let records = write_hash(None, "h1", "/a", "t1");
    let doc = doc_of(&records);
    let back = records_from_doc(&doc).expect("records");
    assert_eq!(back.len(), 1);
    assert_eq!(back[0].hash, "h1");
}

#[test]
fn delete_hash_removes_every_entry_for_path() {
    let doc = JsonDoc::Array(vec![
        entry("h1", "/a", "t1"),
        entry("h2", "/b", "t2"),
        JsonItem::Other(Value::Bool(true)),
        entry("h3", "/a", "t3"),
    ]);
    let after = delete_hash(doc, "/a");
    assert_eq!(paths(&after), vec![Some("/b".to_string()), None]);
    assert!(get_hash(&after, "/a").is_none());
    assert!(get_hash(&after, "/b").is_some());
}

#[test]
fn delete_hash_leaves_non_array_alone() {
    let after = delete_hash(JsonDoc::Other(Value::Null), "/a");
    assert!(matches!(after, JsonDoc::Other(Value::Null)));
}

#[test]
fn scan_step_records_current_hash_once() {
    let before = JsonDoc::Array(vec![entry("old", "/a", "t0"), entry("hb", "/b", "t1")]);
    assert!(!hash_mismatch_checker(Some(&before), "new", "/a"));
    let deleted = delete_hash(before, "/a");
    let records = write_hash(Some(&deleted), "new", "/a", "t2");
    assert_eq!(records.iter().filter(|r| r.file_path == "/a").count(), 1);
    let written = doc_of(&records);
    assert!(hash_mismatch_checker(Some(&written), "new", "/a"));
    assert!(hash_mismatch_checker(Some(&written), "hb", "/b"));
}

#[test]
fn scan_file_step_alerts_on_changed_hash_and_replaces_entry() {
    let before = JsonDoc::Array(vec![entry("old", "/a", "t0"), entry("hb", "/b", "t1")]);
    let outcome = scan_file_step(Some(before), "new", "/a", "t2");
    assert!(outcome.mismatch);
    let got: Vec<(&str, &str)> = outcome.records.iter().map(|r| (r.hash.as_str(), r.file_path.as_str())).collect();
    assert_eq!(got, vec![("hb", "/b"), ("new", "/a")]);
}

#[test]
fn scan_file_step_without_baseline_starts_it() {
    let outcome = scan_file_step(None, "h", "/a", "t");
    assert!(!outcome.mismatch);
    assert_eq!(outcome.records.len(), 1);
    assert_eq!(outcome.records[0].timestamp, "t");
}

#[test]
fn scan_file_step_same_hash_no_alert() {
    let before = JsonDoc::Array(vec![entry("same", "/a", "t0")]);
    let outcome = scan_file_step_now(Some(before), "same", "/a").expect("clock after 1970");
    assert!(!outcome.mismatch);
    assert_eq!(outcome.records.len(), 1);
    assert_eq!(outcome.records[0].hash, "same");
}

#[test]
fn scan_run_keeps_one_record_per_path() {
    let first = scan_file_step(None, "h1", "/a", "t1");
    let doc = doc_of(&first.records);
    let second = scan_file_step(Some(doc), "h2", "/b", "t2");
    let doc = doc_of(&second.records);
    let third = scan_file_step(Some(doc), "h3", "/a", "t3");
    let got: Vec<(&str, &str)> = third.records.iter().map(|r| (r.hash.as_str(), r.file_path.as_str())).collect();
    assert_eq!(got, vec![("h2", "/b"), ("h3", "/a")]);
    assert!(third.mismatch);
}

#[test]
fn scan_run_keeps_order_of_unscanned_paths() {
    let before = JsonDoc::Array(vec![entry("hx", "/x", "t0"), entry("ha", "/a", "t0"), entry("hy", "/y", "t0")]);
    let outcome = scan_file_step(Some(before), "new", "/a", "t1");
    let got: Vec<&str> = outcome.records.iter().map(|r| r.file_path.as_str()).collect();
    assert_eq!(got, vec!["/x", "/y", "/a"]);
}
