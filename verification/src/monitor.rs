//! Monitor mode: which paths are watched, and what each file-system event
//! leads to.

use vstd::prelude::*;
use crate::json::{JsonDoc, text_member};
use crate::baseline::{doc_holds_records, item_path};
use crate::alerts::EventType;
use crate::text::str_equal;

verus! {

/// `path` is the `file_path` of some entry of the baseline.
pub open spec fn is_baseline_path(doc: JsonDoc, path: Seq<char>) -> bool {
    doc matches JsonDoc::Array(items) && exists|i: int| 0 <= i < items@.len() && item_path(#[trigger] items@[i]) == Some(path)
}

/// Some entry among the first `n` items has `file_path` `path`.
pub open spec fn path_in_prefix(items: Seq<crate::json::JsonItem>, n: int, path: Seq<char>) -> bool {
    exists|k: int| 0 <= k < n && item_path(#[trigger] items[k]) == Some(path)
}

/// `path` is one of the strings of `list`.
pub open spec fn is_listed(list: Seq<String>, path: Seq<char>) -> bool {
    exists|a: int| 0 <= a < list.len() && (#[trigger] list[a])@ == path
}

fn contains_string(list: &Vec<String>, s: &str) -> (res: bool)
    ensures
        res == exists|i: int| 0 <= i < list@.len() && (#[trigger] list@[i])@ == s@,
{
    let mut i: usize = 0;
    while i < list.len()
        invariant
            i <= list@.len(),
            forall|j: int| 0 <= j < i ==> (#[trigger] list@[j])@ != s@,
        decreases list@.len() - i,
    {
        if str_equal(list[i].as_str(), s) {
            return true;
        }
        i = i + 1;
    }
    false
}

/// The paths that monitor mode watches: every `file_path` string of the
/// baseline, each once (in the order first seen). A baseline that is not an
/// array gives none.
pub fn files_to_watch(doc: &JsonDoc) -> (res: Vec<String>)
    ensures
        forall|i: int, j: int| 0 <= i < j < res@.len() ==> (#[trigger] res@[i])@ != (#[trigger] res@[j])@,
        forall|path: Seq<char>| #![trigger is_baseline_path(*doc, path)] #![trigger is_listed(res@, path)]
            is_baseline_path(*doc, path) <==> is_listed(res@, path),
{
    let mut res: Vec<String> = Vec::new();
    match doc {
        JsonDoc::Array(items) => {
            let mut i: usize = 0;
            while i < items.len()
                invariant
                    *doc == JsonDoc::Array(*items),
                    i <= items@.len(),
                    forall|a: int, b: int| 0 <= a < b < res@.len() ==> (#[trigger] res@[a])@ != (#[trigger] res@[b])@,
                    forall|path: Seq<char>| #![trigger path_in_prefix(items@, i as int, path)] #![trigger is_listed(res@, path)]
                        path_in_prefix(items@, i as int, path) <==> is_listed(res@, path),
                decreases items@.len() - i,
            {
                let ghost old_res = res@;
                match text_member(&items[i], "file_path") {
                    Some(p) => {
                        if !contains_string(&res, p.as_str()) {
                            res.push(p.clone());
                        }
                    },
                    None => {},
                }
                assert forall|path: Seq<char>| #![trigger path_in_prefix(items@, i + 1, path)] #![trigger is_listed(res@, path)]
                    path_in_prefix(items@, i + 1, path) <==> is_listed(res@, path) by {
                    if path_in_prefix(items@, i + 1, path) {
                        let k = choose|k: int| 0 <= k < i + 1 && item_path(#[trigger] items@[k]) == Some(path);
                        if k < i {
                            assert(path_in_prefix(items@, i as int, path));
                            assert(is_listed(old_res, path));
                            let a = choose|a: int| 0 <= a < old_res.len() && (#[trigger] old_res[a])@ == path;
                            assert(res@[a] == old_res[a]);
                        } else {
                            assert(item_path(items@[i as int]) == Some(path));
                            if res@.len() > old_res.len() {
                                assert(res@[res@.len() - 1]@ == path);
                            } else {
                                let a = choose|a: int| 0 <= a < old_res.len() && (#[trigger] old_res[a])@ == path;
                                assert(res@[a] == old_res[a]);
                            }
                        }
                    }
                    if is_listed(res@, path) {
                        let a = choose|a: int| 0 <= a < res@.len() && (#[trigger] res@[a])@ == path;
                        if a < old_res.len() {
                            assert(old_res[a] == res@[a]);
                            assert(is_listed(old_res, path));
                            assert(path_in_prefix(items@, i as int, path));
                            let k = choose|k: int| 0 <= k < i && item_path(#[trigger] items@[k]) == Some(path);
                            assert(item_path(items@[k]) == Some(path));
                        } else {
                            assert(item_path(items@[i as int]) == Some(path));
                        }
                    }
                }
                i = i + 1;
            }
            assert forall|path: Seq<char>| #![trigger is_baseline_path(*doc, path)]
                is_baseline_path(*doc, path) <==> path_in_prefix(items@, items@.len() as int, path) by {
            }
        },
        _ => {},
    }
    res
}

/// The kinds of file-system event that the watcher reports.
#[derive(Clone, Copy, PartialEq, Eq, Debug)]
pub enum WatchEventKind {
    Any,
    Access,
    Create,
    Modify,
    Remove,
    Other,
}

/// The alert monitor mode raises for an event: creation, modification,
/// removal and access are logged; other events are not.
pub fn alert_for_event(kind: WatchEventKind) -> (res: Option<EventType>)
    ensures
        res == match kind {
            WatchEventKind::Create => Some(EventType::Create),
            WatchEventKind::Modify => Some(EventType::Modify),
            WatchEventKind::Remove => Some(EventType::Remove),
            WatchEventKind::Access => Some(EventType::Access),
            WatchEventKind::Other | WatchEventKind::Any => None,
        },
{
    match kind {
        WatchEventKind::Create => Some(EventType::Create),
        WatchEventKind::Modify => Some(EventType::Modify),
        WatchEventKind::Remove => Some(EventType::Remove),
        WatchEventKind::Access => Some(EventType::Access),
        WatchEventKind::Other | WatchEventKind::Any => None,
    }
}

/// The message that watching the working directory prints for an event.
pub open spec fn event_message_text(kind: WatchEventKind) -> Seq<char> {
    match kind {
        WatchEventKind::Create => "File created"@,
        WatchEventKind::Modify => "File modified"@,
        WatchEventKind::Remove => "File removed"@,
        WatchEventKind::Other => "Other kind of event"@,
        WatchEventKind::Any => "Any"@,
        WatchEventKind::Access => "File accessed"@,
    }
}

/// Law: each kind of event has its own message, which names it: creation
/// `File created`, modification `File modified`, removal `File removed`,
/// access `File accessed`, and `Other kind of event` / `Any` for the rest;
/// no two kinds share a message.
pub proof fn lemma_event_messages(a: WatchEventKind, b: WatchEventKind)
    ensures
        event_message_text(WatchEventKind::Create) == "File created"@,
        event_message_text(WatchEventKind::Modify) == "File modified"@,
        event_message_text(WatchEventKind::Remove) == "File removed"@,
        event_message_text(WatchEventKind::Access) == "File accessed"@,
        event_message_text(WatchEventKind::Other) == "Other kind of event"@,
        event_message_text(WatchEventKind::Any) == "Any"@,
        a != b ==> event_message_text(a) != event_message_text(b),
{
    reveal_strlit("File created");
    reveal_strlit("File modified");
    reveal_strlit("File removed");
    reveal_strlit("File accessed");
    reveal_strlit("Other kind of event");
    reveal_strlit("Any");
    if a != b {
        let ma = event_message_text(a);
        let mb = event_message_text(b);
        if ma.len() == mb.len() {
            assert(ma[5] != mb[5] || ma[6] != mb[6] || ma[0] != mb[0]);
        }
    }
}

/// The message that watching the working directory prints for an event.
pub fn event_message(kind: WatchEventKind) -> (res: &'static str)
    ensures
        res@ == event_message_text(kind),
{
    match kind {
        WatchEventKind::Create => "File created",
        WatchEventKind::Modify => "File modified",
        WatchEventKind::Remove => "File removed",
        WatchEventKind::Other => "Other kind of event",
        WatchEventKind::Any => "Any",
        WatchEventKind::Access => "File accessed",
    }
}

/// Law: every file whose record is in the baseline written out is among
/// the paths that monitor mode watches (`files_to_watch` lists exactly the
/// baseline paths).
pub proof fn lemma_recorded_files_watched(doc: JsonDoc, records: Seq<(Seq<char>, Seq<char>, Seq<char>)>, k: int)
    requires
        doc_holds_records(doc, records),
        0 <= k < records.len(),
    ensures
        is_baseline_path(doc, records[k].1),
{
    match doc {
        JsonDoc::Array(items) => {
            assert(item_path(items@[k]) == Some(records[k].1));
        },
        _ => {},
    }
}

} // verus!
