//! The alert log: one JSON object per event seen on a monitored file.

use vstd::prelude::*;
use crate::json::{JsonDoc, JsonItem, JsonMember, member_shown, show_member, text_field};
use crate::text::{concat, decimal, to_decimal};
use crate::clock::current_timestamp;

verus! {

/// The kind of event an alert reports.
#[derive(Clone, Copy, PartialEq, Eq, Debug)]
pub enum EventType {
    Create,
    Modify,
    Remove,
    Access,
}

/// The name under which an event type is written to the log.
pub open spec fn event_name(event_type: EventType) -> Seq<char> {
    match event_type {
        EventType::Create => "Create"@,
        EventType::Modify => "Modify"@,
        EventType::Remove => "Remove"@,
        EventType::Access => "Access"@,
    }
}

/// Law: each event type is written under its own name (`Create`, `Modify`,
/// `Remove`, `Access`), and no two types share a name.
pub proof fn lemma_event_names(a: EventType, b: EventType)
    ensures
        event_name(EventType::Create) == "Create"@,
        event_name(EventType::Modify) == "Modify"@,
        event_name(EventType::Remove) == "Remove"@,
        event_name(EventType::Access) == "Access"@,
        a != b ==> event_name(a) != event_name(b),
{
    reveal_strlit("Create");
    reveal_strlit("Modify");
    reveal_strlit("Remove");
    reveal_strlit("Access");
    if a != b {
        assert(event_name(a)[0] != event_name(b)[0] || event_name(a)[1] != event_name(b)[1]);
    }
}

/// The name under which `event_type` is written to the log.
pub fn event_type_name(event_type: EventType) -> (res: &'static str)
    ensures
        res@ == event_name(event_type),
{
    match event_type {
        EventType::Create => "Create",
        EventType::Modify => "Modify",
        EventType::Remove => "Remove",
        EventType::Access => "Access",
    }
}

/// `member` is the member `key: value` with a string value.
pub open spec fn is_text_member(member: JsonMember, key: Seq<char>, value: Seq<char>) -> bool {
    member.key@ == key && member.value.text() == Some(value)
}

/// `item` is the alert for an event: the object
/// `{"file_path", "event_type", "note", "timestamp"}` with the note
/// `Event detected in <path>`.
pub open spec fn is_event_alert(item: JsonItem, path: Seq<char>, event_type: EventType, timestamp: Seq<char>) -> bool {
    item matches JsonItem::Object(members) && {
        &&& members@.len() == 4
        &&& is_text_member(members@[0], "file_path"@, path)
        &&& is_text_member(members@[1], "event_type"@, event_name(event_type))
        &&& is_text_member(members@[2], "note"@, "Event detected in "@ + path)
        &&& is_text_member(members@[3], "timestamp"@, timestamp)
    }
}

/// `item` is the alert of a scan that found a changed file: the object
/// `{"file_path", "change_type", "note", "timestamp"}` with the note
/// `Change detected in <path> since the last scan of the file`.
pub open spec fn is_change_alert(item: JsonItem, path: Seq<char>, change_type: Seq<char>, timestamp: Seq<char>) -> bool {
    item matches JsonItem::Object(members) && {
        &&& members@.len() == 4
        &&& is_text_member(members@[0], "file_path"@, path)
        &&& is_text_member(members@[1], "change_type"@, change_type)
        &&& is_text_member(members@[2], "note"@, "Change detected in "@ + path + " since the last scan of the file"@)
        &&& is_text_member(members@[3], "timestamp"@, timestamp)
    }
}

/// The alert for an event on `file_path` at `timestamp`.
pub fn event_alert(file_path: &str, event_type: EventType, timestamp: &str) -> (res: JsonItem)
    ensures
        is_event_alert(res, file_path@, event_type, timestamp@),
{
    let note = concat("Event detected in ", file_path);
    let mut members: Vec<JsonMember> = Vec::new();
    members.push(text_field("file_path", file_path));
    members.push(text_field("event_type", event_type_name(event_type)));
    members.push(text_field("note", note.as_str()));
    members.push(text_field("timestamp", timestamp));
    JsonItem::Object(members)
}

/// The alert of a scan that found `file_path` changed.
pub fn change_alert(file_path: &str, change_type: &str, timestamp: &str) -> (res: JsonItem)
    ensures
        is_change_alert(res, file_path@, change_type@, timestamp@),
{
    let head = concat("Change detected in ", file_path);
    let note = concat(head.as_str(), " since the last scan of the file");
    let mut members: Vec<JsonMember> = Vec::new();
    members.push(text_field("file_path", file_path));
    members.push(text_field("change_type", change_type));
    members.push(text_field("note", note.as_str()));
    members.push(text_field("timestamp", timestamp));
    JsonItem::Object(members)
}

/// `after` is the log `existing` with `alert` appended: an array log gets
/// the alert at its end; any other document becomes the array
/// `[document, alert]`; a log that could not be read or parsed (`None`)
/// counts as the empty object `{}`.
pub open spec fn is_appended(existing: Option<JsonDoc>, after: JsonDoc, alert: JsonItem) -> bool {
    after matches JsonDoc::Array(items) && items@.len() > 0 && items@.last() == alert && {
        let before = items@.drop_last();
        match existing {
            Some(JsonDoc::Array(old)) => before == old@,
            Some(JsonDoc::Object(members)) => before == seq![JsonItem::Object(members)],
            Some(JsonDoc::Other(value)) => before == seq![JsonItem::Other(value)],
            None => before.len() == 1 && (before[0] matches JsonItem::Object(members) && members@.len() == 0),
        }
    }
}

/// Appends `alert` to the log (see `is_appended`).
pub fn append_alert(existing: Option<JsonDoc>, alert: JsonItem) -> (res: JsonDoc)
    ensures
        is_appended(existing, res, alert),
{
    let mut items: Vec<JsonItem> = match existing {
        Some(JsonDoc::Array(old)) => old,
        Some(JsonDoc::Object(members)) => {
            let mut v = Vec::new();
            v.push(JsonItem::Object(members));
            v
        },
        Some(JsonDoc::Other(value)) => {
            let mut v = Vec::new();
            v.push(JsonItem::Other(value));
            v
        },
        None => {
            let mut v = Vec::new();
            v.push(JsonItem::Object(Vec::new()));
            v
        },
    };
    let ghost before = items@;
    items.push(alert);
    assert(items@.drop_last() =~= before);
    JsonDoc::Array(items)
}

/// Records an event on `file_path` in the log read as `existing` (`None` when
/// it could not be read or parsed), stamped with `timestamp`.
pub fn gen_alert(existing: Option<JsonDoc>, file_path: &str, event_type: EventType, timestamp: &str) -> (res: JsonDoc)
    ensures
        res matches JsonDoc::Array(items) && items@.len() > 0
            && is_event_alert(items@.last(), file_path@, event_type, timestamp@)
            && is_appended(existing, res, items@.last()),
{
    let alert = event_alert(file_path, event_type, timestamp);
    append_alert(existing, alert)
}

/// Records an event on `file_path` in the log read as `existing`, stamped
/// with the current time; `None` when the clock gives no time stamp (it
/// reads before 1970).
pub fn gen_alert_now(existing: Option<JsonDoc>, file_path: &str, event_type: EventType) -> (res: Option<JsonDoc>)
    ensures
        res matches Some(log) ==> (log matches JsonDoc::Array(items) && items@.len() > 0
            && is_appended(existing, log, items@.last())
            && exists|timestamp: Seq<char>| is_event_alert(items@.last(), file_path@, event_type, timestamp)),
{
    match current_timestamp() {
        Some(timestamp) => Some(gen_alert(existing, file_path, event_type, timestamp.as_str())),
        None => None,
    }
}

/// Records that a scan found `file_path` changed, in the log read as
/// `existing`, stamped with `timestamp`.
pub fn gen_change_alert(existing: Option<JsonDoc>, file_path: &str, change_type: &str, timestamp: &str) -> (res: JsonDoc)
    ensures
        res matches JsonDoc::Array(items) && items@.len() > 0
            && is_change_alert(items@.last(), file_path@, change_type@, timestamp@)
            && is_appended(existing, res, items@.last()),
{
    let alert = change_alert(file_path, change_type, timestamp);
    append_alert(existing, alert)
}

/// Records that a scan found `file_path` changed, stamped with the current
/// time; `None` when the clock gives no time stamp (it reads before 1970).
pub fn gen_change_alert_now(existing: Option<JsonDoc>, file_path: &str, change_type: &str) -> (res: Option<JsonDoc>)
    ensures
        res matches Some(log) ==> (log matches JsonDoc::Array(items) && items@.len() > 0
            && is_appended(existing, log, items@.last())
            && exists|timestamp: Seq<char>| is_change_alert(items@.last(), file_path@, change_type@, timestamp)),
{
    match current_timestamp() {
        Some(timestamp) => Some(gen_change_alert(existing, file_path, change_type, timestamp.as_str())),
        None => None,
    }
}

/// The change type recorded by the scan's alert: the one asked for when the
/// log already existed; `None` for the first alert, written when the log is
/// created.
pub fn change_type_for_log(log_existed: bool, change_type: &str) -> (res: &str)
    ensures
        res@ == (if log_existed {
            change_type@
        } else {
            "None"@
        }),
{
    if log_existed {
        change_type
    } else {
        "None"
    }
}

/// One line of the alert listing:
/// `#<number> --- <event_type> event in: <file_path>, at: <timestamp>`.
pub open spec fn alert_line_text(number: nat, event_type: Seq<char>, file_path: Seq<char>, timestamp: Seq<char>) -> Seq<char> {
    "#"@ + decimal(number) + " --- "@ + event_type + " event in: "@ + file_path + ", at: "@ + timestamp
}

/// Writes one line of the alert listing from the displayed members.
pub fn alert_line(number: u64, event_type: &str, file_path: &str, timestamp: &str) -> (res: String)
    ensures
        res@ == alert_line_text(number as nat, event_type@, file_path@, timestamp@),
{
    let n = to_decimal(number);
    let s = concat("#", n.as_str());
    let s = concat(s.as_str(), " --- ");
    let s = concat(s.as_str(), event_type);
    let s = concat(s.as_str(), " event in: ");
    let s = concat(s.as_str(), file_path);
    let s = concat(s.as_str(), ", at: ");
    concat(s.as_str(), timestamp)
}

/// `line` lists `item` as alert number `number`: the `event_type`,
/// `file_path` and `timestamp` members as `serde_json` displays them.
pub open spec fn lists_alert(line: Seq<char>, number: nat, item: JsonItem) -> bool {
    exists|e: Seq<char>, p: Seq<char>, t: Seq<char>| {
        &&& member_shown(item, "event_type"@, e)
        &&& member_shown(item, "file_path"@, p)
        &&& member_shown(item, "timestamp"@, t)
        &&& line == alert_line_text(number, e, p, t)
    }
}

/// The lines that list the alert log, numbered from 1; `None` when the log
/// is not an array (nothing is listed). The numbers are kept in a `u16`, so
/// a log of 65535 alerts or more is not accepted.
pub fn show_alerts(log: &JsonDoc) -> (res: Option<Vec<String>>)
    requires
        log matches JsonDoc::Array(items) ==> items@.len() < 65535,
    ensures
        match log {
            JsonDoc::Array(items) => res matches Some(lines) && lines@.len() == items@.len()
                && forall|i: int| 0 <= i < lines@.len() ==> lists_alert(#[trigger] lines@[i]@, (i + 1) as nat, items@[i]),
            _ => res is None,
        },
{
    match log {
        JsonDoc::Array(items) => {
            let mut lines: Vec<String> = Vec::new();
            let mut counter: u16 = 1;
            let mut i: usize = 0;
            while i < items.len()
                invariant
                    *log == JsonDoc::Array(*items),
                    items@.len() < 65535,
                    i <= items@.len(),
                    counter == i + 1,
                    lines@.len() == i,
                    forall|j: int| 0 <= j < i ==> lists_alert(#[trigger] lines@[j]@, (j + 1) as nat, items@[j]),
                decreases items@.len() - i,
            {
                let e = show_member(&items[i], "event_type");
                let p = show_member(&items[i], "file_path");
                let t = show_member(&items[i], "timestamp");
                let line = alert_line(counter as u64, e.as_str(), p.as_str(), t.as_str());
                assert(lists_alert(line@, (i + 1) as nat, items@[i as int]));
                lines.push(line);
                counter = counter + 1;
                i = i + 1;
            }
            Some(lines)
        },
        _ => None,
    }
}

} // verus!
