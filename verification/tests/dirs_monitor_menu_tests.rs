use fim::alerts::EventType;
use fim::dirs::{add_file, baseline_target_action, entry_action, full_scan_target_action, gen_dirs_file, scan_targets, ScanTargets, TargetAction};
use fim::json::{text_member, JsonDoc, JsonField, JsonItem, JsonMember};
use fim::menu::{check_message, full_scan_check_message, parse_command, parse_full_scan_command, MenuCommand};
use fim::monitor::{alert_for_event, event_message, files_to_watch, WatchEventKind};
use serde_json::Value;

fn path_item(p: &str) -> JsonItem {
    JsonItem::Object(vec![JsonMember { key: "file_path".into(), value: JsonField::Text(p.into()) }])
}

#[test]
fn default_dirs_list() {
    let doc = gen_dirs_file();
    match &doc {
        JsonDoc::Array(items) => {
            assert_eq!(items.len(), 33);
            assert_eq!(text_member(&items[0], "file_path").map(|s| s.as_str()), Some("/bin"));
            assert_eq!(text_member(&items[32], "file_path").map(|s| s.as_str()), Some("/usr/libexec"));
        }
        _ => panic!("not an array"),
    }
}

#[test]
fn add_file_appends_entry() {
    let doc = add_file(JsonDoc::Array(vec![path_item("/bin")]), "/opt/app");
    match &doc {
        JsonDoc::Array(items) => {
            assert_eq!(items.len(), 2);
            assert_eq!(text_member(&items[1], "file_path").map(|s| s.as_str()), Some("/opt/app"));
        }
        _ => panic!("not an array"),
    }
    let other = add_file(JsonDoc::Other(Value::Null), "/opt/app");
    assert!(matches!(other, JsonDoc::Other(Value::Null)));
}

#[test]
fn scan_targets_use_default_path_for_entries_without_path() {
    let doc = JsonDoc::Array(vec![path_item("/etc"), JsonItem::Other(Value::from(1))]);
    match scan_targets(&doc) {
        ScanTargets::Paths(paths) => assert_eq!(paths, vec!["/etc".to_string(), "default_path".to_string()]),
        _ => panic!("expected paths"),
    }
    assert!(matches!(scan_targets(&JsonDoc::Array(vec![])), ScanTargets::Empty));
    assert!(matches!(scan_targets(&JsonDoc::Object(vec![])), ScanTargets::NotArray));
}

#[test]
fn target_actions() {
    assert_eq!(baseline_target_action(false, false), TargetAction::Skip);
    assert_eq!(baseline_target_action(true, true), TargetAction::ScanEntries);
    assert_eq!(baseline_target_action(true, false), TargetAction::ScanFile);
    assert_eq!(full_scan_target_action(false), TargetAction::ScanFile);
    assert_eq!(full_scan_target_action(true), TargetAction::ScanEntries);
    assert_eq!(entry_action(true), TargetAction::Skip);
    assert_eq!(entry_action(false), TargetAction::ScanFile);
}

#[test]
fn files_to_watch_lists_each_path_once() {
    let doc = JsonDoc::Array(vec![path_item("/a"), path_item("/b"), path_item("/a"), JsonItem::Other(Value::Null)]);
    let watched = files_to_watch(&doc);
    assert_eq!(watched, vec!["/a".to_string(), "/b".to_string()]);
    assert!(files_to_watch(&JsonDoc::Other(Value::Null)).is_empty());
}

#[test]
fn events_and_alerts() {
    assert_eq!(alert_for_event(WatchEventKind::Create), Some(EventType::Create));
    assert_eq!(alert_for_event(WatchEventKind::Modify), Some(EventType::Modify));
    assert_eq!(alert_for_event(WatchEventKind::Remove), Some(EventType::Remove));
    assert_eq!(alert_for_event(WatchEventKind::Access), Some(EventType::Access));
    assert_eq!(alert_for_event(WatchEventKind::Other), None);
    assert_eq!(alert_for_event(WatchEventKind::Any), None);
    assert_eq!(event_message(WatchEventKind::Create), "File created");
    assert_eq!(event_message(WatchEventKind::Any), "Any");
}

#[test]
fn menu_commands() {
    assert_eq!(parse_command("g\n"), MenuCommand::GenerateHash);
    assert_eq!(parse_command("  H \r\n"), MenuCommand::CheckHash);
    assert_eq!(parse_command("b"), MenuCommand::Baseline);
    assert_eq!(parse_command("S"), MenuCommand::ShowAlerts);
    assert_eq!(parse_command("q"), MenuCommand::Quit);
    assert_eq!(parse_command("f"), MenuCommand::Invalid);
    assert_eq!(parse_command("gg"), MenuCommand::Invalid);
    assert_eq!(parse_command(""), MenuCommand::Invalid);
    assert_eq!(parse_command("\u{3000}a\u{a0}"), MenuCommand::AddFile);
    assert_eq!(parse_full_scan_command("f\n"), MenuCommand::Baseline);
    assert_eq!(parse_full_scan_command("b"), MenuCommand::Invalid);
    assert_eq!(parse_full_scan_command("s"), MenuCommand::Invalid);
    assert_eq!(parse_full_scan_command("C"), MenuCommand::ClearData);
}

#[test]
fn check_messages() {
    assert_eq!(check_message(false), "Mismatch found \n");
    assert_eq!(check_message(true), "No mistmatch detected or file not found in baseline \n");
    assert_eq!(full_scan_check_message(false), Some("Hash mismatch found"));
    assert_eq!(full_scan_check_message(true), None);
}

#[test]
fn added_path_is_scanned() {
    let doc = add_file(JsonDoc::Array(vec![path_item("/bin")]), "/opt/app");
    match scan_targets(&doc) {
        ScanTargets::Paths(paths) => assert_eq!(paths, vec!["/bin".to_string(), "/opt/app".to_string()]),
        _ => panic!("expected paths"),
    }
}

#[test]
fn default_list_scans_default_paths() {
    match scan_targets(&gen_dirs_file()) {
        ScanTargets::Paths(paths) => {
            assert_eq!(paths.len(), 33);
            assert_eq!(paths[0], "/bin");
            assert_eq!(paths[19], "/System/Library/Extensions");
            assert_eq!(paths[32], "/usr/libexec");
        }
        _ => panic!("expected paths"),
    }
}

#[test]
fn recorded_files_are_watched() {
    let records = fim::baseline::write_hash(None, "h", "/srv/app.conf", "t");
    let doc = JsonDoc::Array(
        records
            .iter()
            .map(|r| {
                JsonItem::Object(vec![
                    JsonMember { key: "hash".into(), value: JsonField::Text(r.hash.clone()) },
                    JsonMember { key: "file_path".into(), value: JsonField::Text(r.file_path.clone()) },
                    JsonMember { key: "timestamp".into(), value: JsonField::Text(r.timestamp.clone()) },
                ])
            })
            .collect(),
    );
    assert_eq!(files_to_watch(&doc), vec!["/srv/app.conf".to_string()]);
}
