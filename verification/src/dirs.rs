//! The list of monitored paths and the plan of a scan over it.
//!
//! On disk the list is a JSON array of objects `{"file_path": ..}`; a path
//! names a directory, whose files are scanned, or a single file.

use vstd::prelude::*;
use crate::json::{JsonDoc, JsonItem, JsonMember, text_field, text_member};
use crate::baseline::item_path;

verus! {

/// The paths monitored when no list exists yet.
pub open spec fn default_dir_paths() -> Seq<Seq<char>> {
    seq![
        "/bin"@, "/sbin"@, "/usr/bin"@, "/usr/sbin"@, "/usr/local/bin"@, "/usr/local/sbin"@,
        "/lib"@, "/lib64"@, "/usr/lib"@, "/usr/lib64"@, "/usr/local/lib"@, "/usr/local/lib64"@,
        "/etc"@, "/boot"@, "/Library"@, "/var/log"@, "/etc/init.d"@, "/etc/launchd.conf"@,
        "/lib/modules"@, "/System/Library/Extensions"@, "/etc/cron.d"@, "/usr/lib/cron/tabs"@,
        "/etc/network"@, "/etc/security"@, "/etc/ssh"@, "/var/www"@,
        "/Library/WebServer/Documents"@, "/var/lib/mysql"@, "/var/lib/postgresql"@,
        "/usr/local/var/mysql"@, "/usr/local/var/postgres"@, "/System/Library"@, "/usr/libexec"@,
    ]
}

/// `item` is the entry `{"file_path": path}` of the list and nothing more.
pub open spec fn is_path_entry(item: JsonItem, path: Seq<char>) -> bool {
    item matches JsonItem::Object(members) && members@.len() == 1 && members@[0].key@ == "file_path"@
        && members@[0].value.text() == Some(path)
}

/// The entry `{"file_path": path}`.
pub fn path_entry(path: &str) -> (res: JsonItem)
    ensures
        is_path_entry(res, path@),
{
    let mut members: Vec<JsonMember> = Vec::new();
    members.push(text_field("file_path", path));
    JsonItem::Object(members)
}

/// The list of monitored paths written when none exists yet: one entry
/// `{"file_path": ..}` for each of `default_dir_paths`, in that order.
pub fn gen_dirs_file() -> (res: JsonDoc)
    ensures
        res matches JsonDoc::Array(items) && items@.len() == default_dir_paths().len()
            && forall|i: int| 0 <= i < items@.len() ==> is_path_entry(#[trigger] items@[i], default_dir_paths()[i]),
{
    let paths: Vec<&str> = vec![
        "/bin", "/sbin", "/usr/bin", "/usr/sbin", "/usr/local/bin", "/usr/local/sbin",
        "/lib", "/lib64", "/usr/lib", "/usr/lib64", "/usr/local/lib", "/usr/local/lib64",
        "/etc", "/boot", "/Library", "/var/log", "/etc/init.d", "/etc/launchd.conf",
        "/lib/modules", "/System/Library/Extensions", "/etc/cron.d", "/usr/lib/cron/tabs",
        "/etc/network", "/etc/security", "/etc/ssh", "/var/www",
        "/Library/WebServer/Documents", "/var/lib/mysql", "/var/lib/postgresql",
        "/usr/local/var/mysql", "/usr/local/var/postgres", "/System/Library", "/usr/libexec",
    ];
    assert(paths@.map_values(|p: &str| p@) =~= default_dir_paths());
    let mut items: Vec<JsonItem> = Vec::new();
    let mut i: usize = 0;
    while i < paths.len()
        invariant
            paths@.map_values(|p: &str| p@) == default_dir_paths(),
            i <= paths@.len(),
            items@.len() == i,
            forall|j: int| 0 <= j < i ==> is_path_entry(#[trigger] items@[j], default_dir_paths()[j]),
        decreases paths@.len() - i,
    {
        assert(paths@[i as int]@ == default_dir_paths()[i as int]);
        items.push(path_entry(paths[i]));
        i = i + 1;
    }
    JsonDoc::Array(items)
}

/// Adds `{"file_path": file_path}` at the end of the list; a document that
/// is not an array is left as it is.
pub fn add_file(doc: JsonDoc, file_path: &str) -> (res: JsonDoc)
    ensures
        match doc {
            JsonDoc::Array(items) => res matches JsonDoc::Array(after) && after@.len() == items@.len() + 1
                && after@.drop_last() == items@ && is_path_entry(after@.last(), file_path@),
            _ => res == doc,
        },
{
    match doc {
        JsonDoc::Array(items) => {
            let mut after = items;
            let ghost before = after@;
            after.push(path_entry(file_path));
            assert(after@.drop_last() =~= before);
            JsonDoc::Array(after)
        },
        other => other,
    }
}

/// The path a scan reads from an entry of the list: its `file_path` string,
/// or `default_path` when the entry has none.
pub open spec fn target_path(item: JsonItem) -> Seq<char> {
    match item_path(item) {
        Some(path) => path,
        None => "default_path"@,
    }
}

/// What a scan finds in the list of monitored paths.
pub enum ScanTargets {
    /// The document is not an array.
    NotArray,
    /// The array is empty.
    Empty,
    /// The path of each entry, in order.
    Paths(Vec<String>),
}

/// Reads the paths to scan from the list (see `target_path`).
pub fn scan_targets(doc: &JsonDoc) -> (res: ScanTargets)
    ensures
        match doc {
            JsonDoc::Array(items) => if items@.len() == 0 {
                res is Empty
            } else {
                res matches ScanTargets::Paths(paths) && paths@.len() == items@.len()
                    && forall|i: int| 0 <= i < paths@.len() ==> (#[trigger] paths@[i])@ == target_path(items@[i])
            },
            _ => res is NotArray,
        },
{
    match doc {
        JsonDoc::Array(items) => {
            if items.len() == 0 {
                return ScanTargets::Empty;
            }
            let mut paths: Vec<String> = Vec::new();
            let mut i: usize = 0;
            while i < items.len()
                invariant
                    i <= items@.len(),
                    paths@.len() == i,
                    forall|j: int| 0 <= j < i ==> (#[trigger] paths@[j])@ == target_path(items@[j]),
                decreases items@.len() - i,
            {
                let path = match text_member(&items[i], "file_path") {
                    Some(p) => p.clone(),
                    None => "default_path".to_owned(),
                };
                paths.push(path);
                i = i + 1;
            }
            ScanTargets::Paths(paths)
        },
        _ => ScanTargets::NotArray,
    }
}

/// What a scan does with one path.
#[derive(Clone, Copy, PartialEq, Eq, Debug)]
pub enum TargetAction {
    /// Leave it alone.
    Skip,
    /// Hash each file listed in the directory.
    ScanEntries,
    /// Hash the path itself as a file.
    ScanFile,
}

/// The baseline generation's choice for a monitored path: a path that does
/// not exist is skipped; a directory that can be listed has its files
/// hashed; anything else is hashed as a file.
pub fn baseline_target_action(exists: bool, listable: bool) -> (res: TargetAction)
    ensures
        res == (if !exists {
            TargetAction::Skip
        } else if listable {
            TargetAction::ScanEntries
        } else {
            TargetAction::ScanFile
        }),
{
    if !exists {
        TargetAction::Skip
    } else if listable {
        TargetAction::ScanEntries
    } else {
        TargetAction::ScanFile
    }
}

/// The full scan's choice for a monitored path (it does not test first
/// whether the path exists): a directory that can be listed has its files
/// hashed; anything else is hashed as a file.
pub fn full_scan_target_action(listable: bool) -> (res: TargetAction)
    ensures
        res == (if listable {
            TargetAction::ScanEntries
        } else {
            TargetAction::ScanFile
        }),
{
    if listable {
        TargetAction::ScanEntries
    } else {
        TargetAction::ScanFile
    }
}

/// The choice for one entry of a listed directory: subdirectories are
/// skipped, everything else is hashed.
pub fn entry_action(is_dir: bool) -> (res: TargetAction)
    ensures
        res == (if is_dir {
            TargetAction::Skip
        } else {
            TargetAction::ScanFile
        }),
{
    if is_dir {
        TargetAction::Skip
    } else {
        TargetAction::ScanFile
    }
}

/// Law: an entry written for a path is read back as that path, both by a
/// scan and by a baseline lookup (so a path added to the list is scanned).
pub proof fn lemma_path_entry_read_back(item: JsonItem, path: Seq<char>)
    requires
        is_path_entry(item, path),
    ensures
        item_path(item) == Some(path),
        target_path(item) == path,
{
    match item {
        JsonItem::Object(members) => {
            assert(members@.drop_first().len() == 0);
        },
        _ => {},
    }
}

/// Law: scanning the list written when none existed visits exactly the
/// default paths, in order.
pub proof fn lemma_default_dirs_scanned(doc: JsonDoc)
    requires
        doc matches JsonDoc::Array(items) && items@.len() == default_dir_paths().len()
            && forall|i: int| 0 <= i < items@.len() ==> is_path_entry(#[trigger] items@[i], default_dir_paths()[i]),
    ensures
        doc matches JsonDoc::Array(items) && forall|i: int| 0 <= i < items@.len() ==> target_path(#[trigger] items@[i]) == default_dir_paths()[i],
{
    match doc {
        JsonDoc::Array(items) => {
            assert forall|i: int| 0 <= i < items@.len() implies target_path(#[trigger] items@[i]) == default_dir_paths()[i] by {
                lemma_path_entry_read_back(items@[i], default_dir_paths()[i]);
            }
        },
        _ => {},
    }
}

} // verus!
