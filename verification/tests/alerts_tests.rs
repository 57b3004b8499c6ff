use fim::alerts::{alert_line, event_alert, event_type_name, gen_alert, gen_alert_now, gen_change_alert, show_alerts, EventType};
use fim::json::{text_member, JsonDoc, JsonField, JsonItem, JsonMember};
use serde_json::Value;

fn items(doc: &JsonDoc) -> &Vec<JsonItem> {
    match doc {
        JsonDoc::Array(items) => items,
        _ => panic!("not an array"),
    }
}

fn text<'a>(item: &'a JsonItem, key: &str) -> Option<&'a str> {
    text_member(item, key).map(|s| s.as_str())
}

#[test]
fn event_alert_members() {
    let alert = event_alert("/etc/hosts", EventType::Modify, "2024-01-02 03:04:05");
    assert_eq!(text(&alert, "file_path"), Some("/etc/hosts"));
    assert_eq!(text(&alert, "event_type"), Some("Modify"));
    assert_eq!(text(&alert, "note"), Some("Event detected in /etc/hosts"));
    assert_eq!(text(&alert, "timestamp"), Some("2024-01-02 03:04:05"));
}

#[test]
fn event_type_names() {
    assert_eq!(event_type_name(EventType::Create), "Create");
    assert_eq!(event_type_name(EventType::Remove), "Remove");
    assert_eq!(event_type_name(EventType::Access), "Access");
}

#[test]
fn gen_alert_appends_to_array_log() {
    let log = JsonDoc::Array(vec![event_alert("/a", EventType::Create, "t1")]);
    let after = gen_alert(Some(log), "/b", EventType::Remove, "t2");
    let items = items(&after);
    assert_eq!(items.len(), 2);
    assert_eq!(text(&items[0], "file_path"), Some("/a"));
    assert_eq!(text(&items[1], "event_type"), Some("Remove"));
}

#[test]
fn gen_alert_on_unreadable_log_starts_with_empty_object() {
    let after = gen_alert(None, "/b", EventType::Create, "t");
    let items = items(&after);
    assert_eq!(items.len(), 2);
    assert!(matches!(&items[0], JsonItem::Object(m) if m.is_empty()));
    assert_eq!(text(&items[1], "file_path"), Some("/b"));
}

#[test]
fn gen_alert_wraps_non_array_log() {
    let after = gen_alert(Some(JsonDoc::Other(Value::from(7))), "/b", EventType::Create, "t");
    let items = items(&after);
    assert_eq!(items.len(), 2);
    assert!(matches!(&items[0], JsonItem::Other(v) if *v == Value::from(7)));
}

#[test]
fn gen_alert_now_stamps_current_time() {
    let after = gen_alert_now(None, "/b", EventType::Access).expect("clock after 1970");
    let stamp = text(&items(&after)[1], "timestamp").expect("timestamp").to_string();
    assert_eq!(stamp.len(), 19);
}

#[test]
fn change_alert_note() {
    let after = gen_change_alert(Some(JsonDoc::Array(vec![])), "/bin/ls", "None", "t");
    let items = items(&after);
    assert_eq!(items.len(), 1);
    assert_eq!(text(&items[0], "note"), Some("Change detected in /bin/ls since the last scan of the file"));
    assert_eq!(text(&items[0], "change_type"), Some("None"));
}

#[test]
fn alert_line_format() {
    assert_eq!(
        alert_line(12, "\"Modify\"", "\"/etc/hosts\"", "\"2024-01-02 03:04:05\""),
        "#12 --- \"Modify\" event in: \"/etc/hosts\", at: \"2024-01-02 03:04:05\""
    );
}

#[test]
fn show_alerts_numbers_lines_and_quotes_strings() {
    let log = JsonDoc::Array(vec![
        event_alert("/a", EventType::Create, "t1"),
        JsonItem::Object(vec![JsonMember { key: "event_type".into(), value: JsonField::Other(Value::from(5)) }]),
        JsonItem::Other(Value::Null),
    ]);
    let lines = show_alerts(&log).expect("lines");
    assert_eq!(lines[0], "#1 --- \"Create\" event in: \"/a\", at: \"t1\"");
    assert_eq!(lines[1], "#2 --- 5 event in: null, at: null");
    assert_eq!(lines[2], "#3 --- null event in: null, at: null");
}

#[test]
fn show_alerts_quotes_special_characters() {
    let log = JsonDoc::Array(vec![event_alert("/a\"b", EventType::Create, "t")]);
    let lines = show_alerts(&log).expect("lines");
    assert_eq!(lines[0], "#1 --- \"Create\" event in: \"/a\\\"b\", at: \"t\"");
}

#[test]
fn show_alerts_of_non_array_lists_nothing() {
    assert!(show_alerts(&JsonDoc::Other(Value::Null)).is_none());
}

#[test]
fn show_alerts_escapes_control_characters() {
    let log = JsonDoc::Array(vec![event_alert("a\tb\u{1}\\", EventType::Access, "t")]);
    let lines = show_alerts(&log).expect("lines");
    assert_eq!(lines[0], "#1 --- \"Access\" event in: \"a\\tb\\u0001\\\\\", at: \"t\"");
}

#[test]
fn change_type_of_first_alert_is_none() {
    assert_eq!(fim::alerts::change_type_for_log(false, "Modified"), "None");
    assert_eq!(fim::alerts::change_type_for_log(true, "Modified"), "Modified");
}
