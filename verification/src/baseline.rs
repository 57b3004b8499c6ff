//! The baseline: the recorded hash of every monitored file.
//!
//! On disk the baseline is a JSON array of records
//! `{"hash": .., "file_path": .., "timestamp": ..}`. Looking a file up goes
//! through the document as it was parsed; appending a record rereads the
//! document as a list of records and starts from an empty list when it is
//! not one.

use vstd::prelude::*;
use crate::json::{JsonDoc, JsonField, JsonItem, member_text, item_text, text_member};
use crate::text::str_equal;
use crate::clock::current_timestamp;

verus! {

/// One entry of the baseline.
pub struct HashRecord {
    pub hash: String,
    pub file_path: String,
    pub timestamp: String,
}

impl View for HashRecord {
    /// `(hash, file_path, timestamp)`.
    type V = (Seq<char>, Seq<char>, Seq<char>);

    open spec fn view(&self) -> (Seq<char>, Seq<char>, Seq<char>) {
        (self.hash@, self.file_path@, self.timestamp@)
    }
}

/// The views of a list of records.
pub open spec fn record_views(records: Seq<HashRecord>) -> Seq<(Seq<char>, Seq<char>, Seq<char>)> {
    records.map_values(|r: HashRecord| r@)
}

/// The `file_path` string of an item of the baseline, if it has one.
pub open spec fn item_path(item: JsonItem) -> Option<Seq<char>> {
    item_text(item, "file_path"@)
}

/// The first item whose `file_path` is `path`.
pub open spec fn first_entry(items: Seq<JsonItem>, path: Seq<char>) -> Option<JsonItem>
    decreases items.len(),
{
    if items.len() == 0 {
        None
    } else if item_path(items[0]) == Some(path) {
        Some(items[0])
    } else {
        first_entry(items.drop_first(), path)
    }
}

/// The entry of the baseline for `path`: the first object of the top-level
/// array whose `file_path` is `path`; none when the document is not an array.
pub open spec fn baseline_entry(doc: JsonDoc, path: Seq<char>) -> Option<JsonItem> {
    match doc {
        JsonDoc::Array(items) => first_entry(items@, path),
        _ => None,
    }
}

/// Whether `hash` agrees with the baseline for `path`. It disagrees only when
/// the baseline could be read, holds an entry for `path`, and that entry's
/// `hash` is a string other than `hash`.
pub open spec fn hash_agrees(baseline: Option<JsonDoc>, hash: Seq<char>, path: Seq<char>) -> bool {
    match baseline {
        None => true,
        Some(doc) => match baseline_entry(doc, path) {
            None => true,
            Some(item) => match item_text(item, "hash"@) {
                Some(recorded) => recorded == hash,
                None => true,
            },
        },
    }
}

/// An item read as a record: an object with string members `hash`,
/// `file_path` and `timestamp` (other members ignored), or an array of
/// exactly three strings in that order.
pub open spec fn item_record(item: JsonItem) -> Option<(Seq<char>, Seq<char>, Seq<char>)> {
    match item {
        JsonItem::Object(members) => {
            let h = member_text(members@, "hash"@);
            let p = member_text(members@, "file_path"@);
            let t = member_text(members@, "timestamp"@);
            if h is Some && p is Some && t is Some {
                Some((h->0, p->0, t->0))
            } else {
                None
            }
        },
        JsonItem::List(fields) => {
            if fields@.len() == 3 && fields@[0].text() is Some && fields@[1].text() is Some
                && fields@[2].text() is Some {
                Some((fields@[0].text()->0, fields@[1].text()->0, fields@[2].text()->0))
            } else {
                None
            }
        },
        JsonItem::Other(_) => None,
    }
}

/// A list of items read as records: each item is a record.
pub open spec fn items_records(items: Seq<JsonItem>) -> Option<Seq<(Seq<char>, Seq<char>, Seq<char>)>> {
    if forall|i: int| 0 <= i < items.len() ==> (#[trigger] item_record(items[i])) is Some {
        Some(Seq::new(items.len(), |i: int| item_record(items[i])->0))
    } else {
        None
    }
}

/// The document read as a list of records: an array whose every item is a
/// record.
pub open spec fn doc_records(doc: JsonDoc) -> Option<Seq<(Seq<char>, Seq<char>, Seq<char>)>> {
    match doc {
        JsonDoc::Array(items) => items_records(items@),
        _ => None,
    }
}

/// The records that appending starts from: those of the document when it
/// could be read as records, else none.
pub open spec fn records_or_empty(existing: Option<JsonDoc>) -> Seq<(Seq<char>, Seq<char>, Seq<char>)> {
    match existing {
        Some(doc) => match doc_records(doc) {
            Some(records) => records,
            None => Seq::empty(),
        },
        None => Seq::empty(),
    }
}

/// The records that appending finds after the entries for `path` were
/// deleted from `doc`: those of the remaining items when every one is a
/// record, else none.
pub open spec fn records_after_deletion(doc: JsonDoc, path: Seq<char>) -> Seq<(Seq<char>, Seq<char>, Seq<char>)> {
    match doc {
        JsonDoc::Array(items) => match items_records(without_path(items@, path)) {
            Some(records) => records,
            None => Seq::empty(),
        },
        _ => Seq::empty(),
    }
}

/// The items that remain after removing every object whose `file_path` is
/// `path`, in their order.
pub open spec fn without_path(items: Seq<JsonItem>, path: Seq<char>) -> Seq<JsonItem>
    decreases items.len(),
{
    if items.len() == 0 {
        items
    } else if item_path(items.last()) == Some(path) {
        without_path(items.drop_last(), path)
    } else {
        without_path(items.drop_last(), path).push(items.last())
    }
}

/// `after` is `before` with the entries for `path` removed; a document that
/// is not an array is left as it is.
pub open spec fn is_deletion(before: JsonDoc, after: JsonDoc, path: Seq<char>) -> bool {
    match before {
        JsonDoc::Array(items) => after matches JsonDoc::Array(rest) && rest@ == without_path(items@, path),
        _ => after == before,
    }
}

/// `doc` is the document written for `records`: an array holding, for each
/// record in order, an object whose `hash`, `file_path` and `timestamp` are
/// the record's strings.
pub open spec fn doc_holds_records(doc: JsonDoc, records: Seq<(Seq<char>, Seq<char>, Seq<char>)>) -> bool {
    match doc {
        JsonDoc::Array(items) => {
            &&& items@.len() == records.len()
            &&& forall|i: int| 0 <= i < records.len() ==> {
                let item = #[trigger] items@[i];
                &&& item is Object
                &&& item_text(item, "hash"@) == Some(records[i].0)
                &&& item_text(item, "file_path"@) == Some(records[i].1)
                &&& item_text(item, "timestamp"@) == Some(records[i].2)
            }
        },
        _ => false,
    }
}

/// Looks up the baseline entry of `file_path`: the first object of the
/// top-level array whose `file_path` member is that string.
pub fn get_hash<'a>(doc: &'a JsonDoc, file_path: &str) -> (res: Option<&'a JsonItem>)
    ensures
        match res {
            Some(item) => baseline_entry(*doc, file_path@) == Some(*item),
            None => baseline_entry(*doc, file_path@) is None,
        },
{
    match doc {
        JsonDoc::Array(items) => {
            let mut i: usize = 0;
            assert(items@.subrange(0, items@.len() as int) =~= items@);
            while i < items.len()
                invariant
                    *doc == JsonDoc::Array(*items),
                    i <= items@.len(),
                    first_entry(items@, file_path@) == first_entry(
                        items@.subrange(i as int, items@.len() as int),
                        file_path@,
                    ),
                decreases items@.len() - i,
            {
                let ghost rest = items@.subrange(i as int, items@.len() as int);
                assert(rest.drop_first() =~= items@.subrange(i + 1, items@.len() as int));
                match text_member(&items[i], "file_path") {
                    Some(p) => {
                        if str_equal(p.as_str(), file_path) {
                            assert(rest[0] == items@[i as int]);
                            return Some(&items[i]);
                        }
                    },
                    None => {},
                }
                i = i + 1;
            }
            None
        },
        _ => None,
    }
}

/// Whether `hash` agrees with what the baseline records for `file_path`
/// (`true` means no mismatch). `baseline` is `None` when the baseline file
/// could not be read or parsed; then, as when the file has no entry for the
/// path or the entry has no string `hash`, there is no mismatch.
pub fn hash_mismatch_checker(baseline: Option<&JsonDoc>, hash: &str, file_path: &str) -> (res: bool)
    ensures
        res == hash_agrees(
            match baseline {
                Some(doc) => Some(*doc),
                None => None,
            },
            hash@,
            file_path@,
        ),
{
    match baseline {
        None => true,
        Some(doc) => match get_hash(doc, file_path) {
            None => true,
            Some(entry) => match text_member(entry, "hash") {
                Some(recorded) => str_equal(recorded.as_str(), hash),
                None => true,
            },
        },
    }
}

fn text_of(field: &JsonField) -> (res: Option<String>)
    ensures
        match res {
            Some(s) => field.text() == Some(s@),
            None => field.text() is None,
        },
{
    match field {
        JsonField::Text(s) => Some(s.clone()),
        JsonField::Other(_) => None,
    }
}

/// Reads one item as a record (see `item_record`).
pub fn record_of(item: &JsonItem) -> (res: Option<HashRecord>)
    ensures
        match res {
            Some(r) => item_record(*item) == Some(r@),
            None => item_record(*item) is None,
        },
{
    match item {
        JsonItem::Object(_) => {
            let h = text_member(item, "hash");
            let p = text_member(item, "file_path");
            let t = text_member(item, "timestamp");
            match (h, p, t) {
                (Some(h), Some(p), Some(t)) => Some(
                    HashRecord { hash: h.clone(), file_path: p.clone(), timestamp: t.clone() },
                ),
                _ => None,
            }
        },
        JsonItem::List(fields) => {
            if fields.len() == 3 {
                match (text_of(&fields[0]), text_of(&fields[1]), text_of(&fields[2])) {
                    (Some(h), Some(p), Some(t)) => Some(
                        HashRecord { hash: h, file_path: p, timestamp: t },
                    ),
                    _ => None,
                }
            } else {
                None
            }
        },
        JsonItem::Other(_) => None,
    }
}

/// Reads the document as a list of records (see `doc_records`).
pub fn records_from_doc(doc: &JsonDoc) -> (res: Option<Vec<HashRecord>>)
    ensures
        match res {
            Some(records) => doc_records(*doc) == Some(record_views(records@)),
            None => doc_records(*doc) is None,
        },
{
    match doc {
        JsonDoc::Array(items) => {
            let mut records: Vec<HashRecord> = Vec::new();
            let mut i: usize = 0;
            while i < items.len()
                invariant
                    *doc == JsonDoc::Array(*items),
                    i <= items@.len(),
                    records@.len() == i,
                    forall|j: int| 0 <= j < i ==> item_record(items@[j]) == Some(#[trigger] records@[j]@),
                decreases items@.len() - i,
            {
                match record_of(&items[i]) {
                    Some(r) => records.push(r),
                    None => {
                        assert(item_record(items@[i as int]) is None);
                        return None;
                    },
                }
                i = i + 1;
            }
            assert forall|k: int| 0 <= k < items@.len() implies (#[trigger] item_record(items@[k])) is Some by {
                assert(item_record(items@[k]) == Some(records@[k]@));
            }
            assert(record_views(records@) =~= Seq::new(items@.len(), |k: int| item_record(items@[k])->0));
            Some(records)
        },
        _ => None,
    }
}

/// Appends a record to the baseline. `existing` is the baseline document as
/// read (`None` when it could not be read or parsed); the result is the list
/// of records to write back: those of `existing` when it is a list of
/// records, else none, followed by the new record.
pub fn write_hash(existing: Option<&JsonDoc>, hash: &str, file_path: &str, creation_timestamp: &str) -> (res: Vec<HashRecord>)
    ensures
        record_views(res@) == records_or_empty(
            match existing {
                Some(doc) => Some(*doc),
                None => None,
            },
        ).push((hash@, file_path@, creation_timestamp@)),
{
    let mut records = match existing {
        Some(doc) => match records_from_doc(doc) {
            Some(records) => records,
            None => Vec::new(),
        },
        None => Vec::new(),
    };
    let ghost before = records@;
    records.push(HashRecord {
        hash: hash.to_owned(),
        file_path: file_path.to_owned(),
        timestamp: creation_timestamp.to_owned(),
    });
    assert(record_views(records@) =~= record_views(before).push((hash@, file_path@, creation_timestamp@)));
    records
}

/// Removes from the baseline every object whose `file_path` is `file_path`,
/// keeping the other items in order; a document that is not an array is
/// returned as it is.
pub fn delete_hash(doc: JsonDoc, file_path: &str) -> (res: JsonDoc)
    ensures
        is_deletion(doc, res, file_path@),
{
    match doc {
        JsonDoc::Array(items) => {
            let ghost all = items@;
            let mut rest = items;
            // Move the items onto `reversed`, last item first.
            let mut reversed: Vec<JsonItem> = Vec::new();
            while rest.len() > 0
                invariant
                    rest@ == all.take(rest@.len() as int),
                    rest@.len() + reversed@.len() == all.len(),
                    forall|j: int| 0 <= j < reversed@.len() ==> #[trigger] reversed@[j] == all[all.len() - 1 - j],
                decreases rest@.len(),
            {
                let item = rest.pop().unwrap();
                reversed.push(item);
                assert(rest@ =~= all.take(rest@.len() as int));
            }
            // Take them back in their original order, keeping those that are
            // not entries for `file_path`.
            let mut kept: Vec<JsonItem> = Vec::new();
            assert(all.take(0) =~= Seq::<JsonItem>::empty());
            while reversed.len() > 0
                invariant
                    reversed@.len() <= all.len(),
                    forall|j: int| 0 <= j < reversed@.len() ==> #[trigger] reversed@[j] == all[all.len() - 1 - j],
                    kept@ == without_path(all.take(all.len() - reversed@.len()), file_path@),
                decreases reversed@.len(),
            {
                let ghost k = all.len() - reversed@.len();
                let item = reversed.pop().unwrap();
                assert(item == all[k]);
                assert(all.take(k + 1).drop_last() =~= all.take(k));
                let drop = match text_member(&item, "file_path") {
                    Some(p) => str_equal(p.as_str(), file_path),
                    None => false,
                };
                if !drop {
                    kept.push(item);
                }
            }
            assert(all.take(all.len() as int) =~= all);
            JsonDoc::Array(kept)
        },
        other => other,
    }
}

/// `after` is `before` followed by one record for `path` with hash `hash`
/// (its time stamp left open).
pub open spec fn appends_record(
    after: Seq<(Seq<char>, Seq<char>, Seq<char>)>,
    before: Seq<(Seq<char>, Seq<char>, Seq<char>)>,
    hash: Seq<char>,
    path: Seq<char>,
) -> bool {
    &&& after.len() == before.len() + 1
    &&& after.drop_last() == before
    &&& after.last().0 == hash
    &&& after.last().1 == path
}

/// Law: the recorded hash decides the check. When the baseline holds an
/// entry for `path` whose `hash` is a string, the current hash agrees exactly
/// when it equals that string, whatever the strings' lengths (any other
/// recorded hash is a mismatch); without an entry for `path`, or with an
/// entry whose `hash` is not a string, or without a readable baseline, there
/// is no mismatch.
pub proof fn lemma_recorded_hash_decides(baseline: Option<JsonDoc>, hash: Seq<char>, path: Seq<char>, recorded: Seq<char>)
    ensures
        (baseline matches Some(doc) && baseline_entry(doc, path) matches Some(item) && item_text(item, "hash"@)
            == Some(recorded)) ==> (hash_agrees(baseline, hash, path) <==> recorded == hash),
        (baseline matches Some(doc) && baseline_entry(doc, path) matches Some(item) && item_text(item, "hash"@)
            == Some(recorded) && recorded != hash) ==> !hash_agrees(baseline, hash, path),
        (baseline matches Some(doc) && baseline_entry(doc, path) is None) ==> hash_agrees(baseline, hash, path),
        (baseline matches Some(doc) && baseline_entry(doc, path) matches Some(item) && item_text(item, "hash"@)
            is None) ==> hash_agrees(baseline, hash, path),
        baseline is None ==> hash_agrees(baseline, hash, path),
{
}

/// Appends a record stamped with the current time (see `write_hash`);
/// `None`, and nothing appended, when the clock gives no time stamp (it reads
/// before 1970).
pub fn write_hash_now(existing: Option<&JsonDoc>, hash: &str, file_path: &str) -> (res: Option<Vec<HashRecord>>)
    ensures
        res matches Some(records) ==> appends_record(record_views(records@), records_or_empty(
            match existing {
                Some(doc) => Some(*doc),
                None => None,
            },
        ), hash@, file_path@),
{
    match current_timestamp() {
        Some(timestamp) => {
            let records = write_hash(existing, hash, file_path, timestamp.as_str());
            assert(record_views(records@).drop_last() =~= records_or_empty(
                match existing {
                    Some(doc) => Some(*doc),
                    None => None,
                },
            ));
            Some(records)
        },
        None => None,
    }
}

/// Looking up in a list extended by one item finds what the list already
/// held, else the new item if it is for that path.
pub proof fn lemma_first_entry_push(items: Seq<JsonItem>, item: JsonItem, path: Seq<char>)
    ensures
        first_entry(items.push(item), path) == (match first_entry(items, path) {
            Some(found) => Some(found),
            None => if item_path(item) == Some(path) {
                Some(item)
            } else {
                None
            },
        }),
    decreases items.len(),
{
    if items.len() > 0 {
        assert(items.push(item)[0] == items[0]);
        assert(items.push(item).drop_first() =~= items.drop_first().push(item));
        lemma_first_entry_push(items.drop_first(), item, path);
    } else {
        assert(items.push(item)[0] == item);
        assert(items.push(item).drop_first() =~= Seq::<JsonItem>::empty());
        assert(first_entry(Seq::<JsonItem>::empty(), path) is None);
    }
}

/// No item left by `without_path` is an entry for `path`, and every item left
/// is one of the original items.
pub proof fn lemma_without_path_items(items: Seq<JsonItem>, path: Seq<char>)
    ensures
        forall|i: int| 0 <= i < without_path(items, path).len() ==>
            item_path(#[trigger] without_path(items, path)[i]) != Some(path),
        forall|i: int| 0 <= i < without_path(items, path).len() ==>
            items.contains(#[trigger] without_path(items, path)[i]),
    decreases items.len(),
{
    if items.len() > 0 {
        lemma_without_path_items(items.drop_last(), path);
        let prev = without_path(items.drop_last(), path);
        assert forall|i: int| 0 <= i < without_path(items, path).len() implies
            items.contains(#[trigger] without_path(items, path)[i]) by {
            if i < prev.len() {
                let x = prev[i];
                assert(items.drop_last().contains(x));
                let j = choose|j: int| 0 <= j < items.drop_last().len() && items.drop_last()[j] == x;
                assert(items[j] == x);
            } else {
                assert(items[items.len() - 1] == items.last());
            }
        }
    }
}

/// Looking up a path in a list with no entry for it finds nothing.
proof fn lemma_first_entry_none(items: Seq<JsonItem>, path: Seq<char>)
    requires
        forall|i: int| 0 <= i < items.len() ==> item_path(#[trigger] items[i]) != Some(path),
    ensures
        first_entry(items, path) is None,
    decreases items.len(),
{
    if items.len() > 0 {
        assert(items[0] == items[0]);
        assert forall|i: int| 0 <= i < items.drop_first().len() implies item_path(
            #[trigger] items.drop_first()[i],
        ) != Some(path) by {
            assert(items.drop_first()[i] == items[i + 1]);
        }
        lemma_first_entry_none(items.drop_first(), path);
    }
}

/// Removing the entries for one path leaves the lookup of every other path
/// as it was.
proof fn lemma_without_path_lookup(items: Seq<JsonItem>, path: Seq<char>, other: Seq<char>)
    requires
        other != path,
    ensures
        first_entry(without_path(items, path), other) == first_entry(items, other),
    decreases items.len(),
{
    if items.len() > 0 {
        lemma_without_path_lookup(items.drop_last(), path, other);
        let prev = without_path(items.drop_last(), path);
        assert(items =~= items.drop_last().push(items.last()));
        lemma_first_entry_push(items.drop_last(), items.last(), other);
        if item_path(items.last()) != Some(path) {
            lemma_first_entry_push(prev, items.last(), other);
        }
    }
}

/// Law: after the entries for a path are deleted, the baseline holds no
/// entry for it, and the entry of every other path is the one it held before.
pub proof fn lemma_delete_hash_lookup(before: JsonDoc, after: JsonDoc, path: Seq<char>, other: Seq<char>)
    requires
        is_deletion(before, after, path),
    ensures
        baseline_entry(after, path) is None,
        other != path ==> baseline_entry(after, other) == baseline_entry(before, other),
{
    match before {
        JsonDoc::Array(items) => {
            lemma_without_path_items(items@, path);
            lemma_first_entry_none(without_path(items@, path), path);
            if other != path {
                lemma_without_path_lookup(items@, path, other);
            }
        },
        _ => {},
    }
}

/// Law: a list of records written out as a document reads back as the same
/// list of records.
pub proof fn lemma_records_round_trip(doc: JsonDoc, records: Seq<(Seq<char>, Seq<char>, Seq<char>)>)
    requires
        doc_holds_records(doc, records),
    ensures
        doc_records(doc) == Some(records),
        records_or_empty(Some(doc)) == records,
{
    match doc {
        JsonDoc::Array(items) => {
            assert forall|i: int| 0 <= i < items@.len() implies #[trigger] item_record(items@[i]) == Some(records[i]) by {
                let item = items@[i];
                assert(item is Object);
            }
            assert(Seq::new(items@.len(), |i: int| item_record(items@[i])->0) =~= records);
        },
        _ => {},
    }
}

/// The entry found for `path` in a document written for `records` is the
/// object written for the first record of `path`.
proof fn lemma_records_lookup(doc: JsonDoc, records: Seq<(Seq<char>, Seq<char>, Seq<char>)>, path: Seq<char>, k: int)
    requires
        doc_holds_records(doc, records),
        0 <= k < records.len(),
        records[k].1 == path,
        forall|i: int| 0 <= i < k ==> (#[trigger] records[i]).1 != path,
    ensures
        baseline_entry(doc, path) matches Some(item) && item_text(item, "hash"@) == Some(records[k].0),
{
    match doc {
        JsonDoc::Array(items) => {
            let s = items@;
            assert forall|i: int| 0 <= i < s.take(k).len() implies item_path(#[trigger] s.take(k)[i]) != Some(path) by {
                assert(s.take(k)[i] == s[i]);
                assert(records[i].1 != path);
            }
            lemma_first_entry_none(s.take(k), path);
            lemma_first_entry_prefix(s, k, path);
        },
        _ => {},
    }
}

/// When nothing before position `k` is an entry for `path` and position `k`
/// is, the lookup finds position `k`.
proof fn lemma_first_entry_prefix(items: Seq<JsonItem>, k: int, path: Seq<char>)
    requires
        0 <= k < items.len(),
        first_entry(items.take(k), path) is None,
        item_path(items[k]) == Some(path),
    ensures
        first_entry(items, path) == Some(items[k]),
    decreases items.len(),
{
    if k == 0 {
    } else {
        assert(items.take(k).drop_first() =~= items.drop_first().take(k - 1));
        assert(items.take(k)[0] == items[0]);
        lemma_first_entry_prefix(items.drop_first(), k - 1, path);
    }
}

/// Law (one step of a scan): when the entries for `path` are deleted from
/// the baseline `before` and the record `(hash, path, timestamp)` is then
/// appended, the baseline written out holds exactly one record for `path`,
/// the last one, and checking `hash` against it finds no mismatch.
/// (An item of `before` that is a three-string array is read as a record by
/// the append but is not an entry that lookup or deletion sees; such
/// baselines are left out.)
pub proof fn lemma_scan_step(
    before: JsonDoc,
    written: JsonDoc,
    hash: Seq<char>,
    path: Seq<char>,
    timestamp: Seq<char>,
)
    requires
        before matches JsonDoc::Array(items) ==> forall|i: int| 0 <= i < items@.len() ==> !(#[trigger] items@[i] is List),
        doc_holds_records(written, records_after_deletion(before, path).push((hash, path, timestamp))),
    ensures
        ({
            let records = records_after_deletion(before, path).push((hash, path, timestamp));
            &&& forall|i: int| 0 <= i < records.len() - 1 ==> (#[trigger] records[i]).1 != path
            &&& records.last().1 == path
        }),
        baseline_entry(written, path) matches Some(item) && item_text(item, "hash"@) == Some(hash),
        hash_agrees(Some(written), hash, path),
{
    let old_records = records_after_deletion(before, path);
    let records = old_records.push((hash, path, timestamp));
    assert forall|i: int| 0 <= i < records.len() - 1 implies (#[trigger] records[i]).1 != path by {
        assert(records[i] == old_records[i]);
        match before {
            JsonDoc::Array(items) => {
                lemma_without_path_items(items@, path);
                let kept = without_path(items@, path);
                let item = kept[i];
                assert(items@.contains(item));
                assert(item_record(item) == Some(old_records[i]));
                assert(item_path(item) != Some(path));
            },
            _ => {},
        }
    }
    lemma_records_lookup(written, records, path, records.len() - 1);
}

/// The records for `path`, in order.
pub open spec fn records_with_path(
    records: Seq<(Seq<char>, Seq<char>, Seq<char>)>,
    path: Seq<char>,
) -> Seq<(Seq<char>, Seq<char>, Seq<char>)>
    decreases records.len(),
{
    if records.len() == 0 {
        records
    } else if records.last().1 == path {
        records_with_path(records.drop_last(), path).push(records.last())
    } else {
        records_with_path(records.drop_last(), path)
    }
}

proof fn lemma_items_records_push(items: Seq<JsonItem>, item: JsonItem)
    requires
        items_records(items) is Some,
        item_record(item) is Some,
    ensures
        items_records(items.push(item)) == Some(items_records(items)->0.push(item_record(item)->0)),
{
    let all = items.push(item);
    assert forall|i: int| 0 <= i < all.len() implies (#[trigger] item_record(all[i])) is Some by {
        if i < items.len() {
            assert(all[i] == items[i]);
        }
    }
    assert(Seq::new(all.len(), |i: int| item_record(all[i])->0) =~= items_records(items)->0.push(
        item_record(item)->0,
    ));
}

proof fn lemma_items_records_prefix(items: Seq<JsonItem>)
    requires
        items.len() > 0,
        items_records(items) is Some,
    ensures
        items_records(items.drop_last()) is Some,
        item_record(items.last()) is Some,
        items_records(items) == Some(items_records(items.drop_last())->0.push(item_record(items.last())->0)),
{
    let prefix = items.drop_last();
    assert forall|i: int| 0 <= i < prefix.len() implies (#[trigger] item_record(prefix[i])) is Some by {
        assert(prefix[i] == items[i]);
        assert(item_record(items[i]) is Some);
    }
    assert(item_record(items[items.len() - 1]) is Some);
    assert(items =~= prefix.push(items.last()));
    lemma_items_records_push(prefix, items.last());
}

/// Deleting the entries for `path` from a list of records keeps, in order,
/// every record of another path.
proof fn lemma_without_path_keeps_records(items: Seq<JsonItem>, path: Seq<char>, other: Seq<char>)
    requires
        items_records(items) is Some,
        other != path,
    ensures
        items_records(without_path(items, path)) is Some,
        records_with_path(items_records(without_path(items, path))->0, other) == records_with_path(
            items_records(items)->0,
            other,
        ),
    decreases items.len(),
{
    if items.len() == 0 {
        assert(items_records(items)->0 =~= Seq::<(Seq<char>, Seq<char>, Seq<char>)>::empty());
        assert(items_records(without_path(items, path))->0 =~= Seq::<(Seq<char>, Seq<char>, Seq<char>)>::empty());
    } else {
        let prefix = items.drop_last();
        let last = items.last();
        lemma_items_records_prefix(items);
        lemma_without_path_keeps_records(prefix, path, other);
        let rec = item_record(last)->0;
        let all = items_records(items)->0;
        assert(all.drop_last() =~= items_records(prefix)->0);
        if item_path(last) == Some(path) {
            assert(last is Object);
            assert(rec.1 == path);
        } else {
            lemma_items_records_push(without_path(prefix, path), last);
            let kept = items_records(without_path(items, path))->0;
            assert(kept.drop_last() =~= items_records(without_path(prefix, path))->0);
        }
    }
}

/// Law (a scan step and every other path): when the baseline `before` is a
/// list of records, deleting the entries for `path` and appending a record
/// for `path` leaves the records of every other path as they were, in order
/// (so the first record of another path, and how many it has, are
/// unchanged).
pub proof fn lemma_scan_step_keeps_other_paths(
    before: JsonDoc,
    hash: Seq<char>,
    path: Seq<char>,
    timestamp: Seq<char>,
    other: Seq<char>,
)
    requires
        doc_records(before) is Some,
        other != path,
    ensures
        records_with_path(records_after_deletion(before, path).push((hash, path, timestamp)), other)
            == records_with_path(doc_records(before)->0, other),
{
    match before {
        JsonDoc::Array(items) => {
            lemma_without_path_keeps_records(items@, path, other);
            let after = records_after_deletion(before, path);
            assert(after.push((hash, path, timestamp)).drop_last() =~= after);
        },
        _ => {},
    }
}

/// The records that are not for `path`, in order.
pub open spec fn records_without_path(
    records: Seq<(Seq<char>, Seq<char>, Seq<char>)>,
    path: Seq<char>,
) -> Seq<(Seq<char>, Seq<char>, Seq<char>)>
    decreases records.len(),
{
    if records.len() == 0 {
        records
    } else if records.last().1 == path {
        records_without_path(records.drop_last(), path)
    } else {
        records_without_path(records.drop_last(), path).push(records.last())
    }
}

/// One scan step on the list of records: the records of the scanned path are
/// replaced by the new record, at the end.
pub open spec fn scan_records(
    records: Seq<(Seq<char>, Seq<char>, Seq<char>)>,
    record: (Seq<char>, Seq<char>, Seq<char>),
) -> Seq<(Seq<char>, Seq<char>, Seq<char>)> {
    records_without_path(records, record.1).push(record)
}

/// A run of scan steps, in order, starting from `records`.
pub open spec fn scan_run(
    records: Seq<(Seq<char>, Seq<char>, Seq<char>)>,
    steps: Seq<(Seq<char>, Seq<char>, Seq<char>)>,
) -> Seq<(Seq<char>, Seq<char>, Seq<char>)>
    decreases steps.len(),
{
    if steps.len() == 0 {
        records
    } else {
        scan_records(scan_run(records, steps.drop_last()), steps.last())
    }
}

/// `items` are the objects written for `records`, one for one.
pub open spec fn items_hold_records(items: Seq<JsonItem>, records: Seq<(Seq<char>, Seq<char>, Seq<char>)>) -> bool {
    &&& items.len() == records.len()
    &&& forall|i: int| 0 <= i < records.len() ==> {
        let item = #[trigger] items[i];
        &&& item is Object
        &&& item_text(item, "hash"@) == Some(records[i].0)
        &&& item_text(item, "file_path"@) == Some(records[i].1)
        &&& item_text(item, "timestamp"@) == Some(records[i].2)
    }
}

proof fn lemma_items_hold_records_deletion(items: Seq<JsonItem>, records: Seq<(Seq<char>, Seq<char>, Seq<char>)>, path: Seq<char>)
    requires
        items_hold_records(items, records),
    ensures
        items_records(without_path(items, path)) == Some(records_without_path(records, path)),
    decreases items.len(),
{
    if items.len() == 0 {
        assert(items_records(without_path(items, path))->0 =~= Seq::<(Seq<char>, Seq<char>, Seq<char>)>::empty());
    } else {
        let prefix = items.drop_last();
        let rprefix = records.drop_last();
        assert forall|i: int| 0 <= i < rprefix.len() implies {
            let item = #[trigger] prefix[i];
            &&& item is Object
            &&& item_text(item, "hash"@) == Some(rprefix[i].0)
            &&& item_text(item, "file_path"@) == Some(rprefix[i].1)
            &&& item_text(item, "timestamp"@) == Some(rprefix[i].2)
        } by {
            assert(prefix[i] == items[i]);
            assert(rprefix[i] == records[i]);
        }
        lemma_items_hold_records_deletion(prefix, rprefix, path);
        let last = items.last();
        assert(last == items[items.len() - 1]);
        assert(records.last() == records[records.len() - 1]);
        assert(item_record(last) == Some(records.last()));
        if item_path(last) != Some(path) {
            lemma_items_records_push(without_path(prefix, path), last);
        }
    }
}

/// Law: deleting the entries for `path` from the document written for
/// `records` leaves exactly the records of other paths; so scanning a file
/// against a baseline written by an earlier step (`scan_file_step`) is one
/// step of `scan_run`.
pub proof fn lemma_written_records_deletion(
    doc: JsonDoc,
    records: Seq<(Seq<char>, Seq<char>, Seq<char>)>,
    path: Seq<char>,
    hash: Seq<char>,
    timestamp: Seq<char>,
)
    requires
        doc_holds_records(doc, records),
    ensures
        records_after_deletion(doc, path) == records_without_path(records, path),
        records_after_deletion(doc, path).push((hash, path, timestamp)) == scan_records(records, (hash, path, timestamp)),
{
    match doc {
        JsonDoc::Array(items) => {
            lemma_items_hold_records_deletion(items@, records, path);
        },
        _ => {},
    }
}

proof fn lemma_records_without_path_filter(
    records: Seq<(Seq<char>, Seq<char>, Seq<char>)>,
    path: Seq<char>,
    other: Seq<char>,
)
    ensures
        records_with_path(records_without_path(records, path), path).len() == 0,
        other != path ==> records_with_path(records_without_path(records, path), other) == records_with_path(records, other),
    decreases records.len(),
{
    if records.len() > 0 {
        lemma_records_without_path_filter(records.drop_last(), path, other);
        let prev = records_without_path(records.drop_last(), path);
        if records.last().1 != path {
            assert(prev.push(records.last()).drop_last() =~= prev);
        }
    }
}

/// The last step of a run that scanned `path`, if any.
pub open spec fn last_step_for(
    steps: Seq<(Seq<char>, Seq<char>, Seq<char>)>,
    path: Seq<char>,
) -> Option<(Seq<char>, Seq<char>, Seq<char>)>
    decreases steps.len(),
{
    if steps.len() == 0 {
        None
    } else if steps.last().1 == path {
        Some(steps.last())
    } else {
        last_step_for(steps.drop_last(), path)
    }
}

/// Law (a whole run of scans): after any run of scan steps, each path that
/// was scanned has exactly one record, the one of its last step, and every
/// path that was not scanned keeps its records as they were, in order.
pub proof fn lemma_scan_run(
    records: Seq<(Seq<char>, Seq<char>, Seq<char>)>,
    steps: Seq<(Seq<char>, Seq<char>, Seq<char>)>,
    path: Seq<char>,
)
    ensures
        records_with_path(scan_run(records, steps), path) == match last_step_for(steps, path) {
            Some(record) => seq![record],
            None => records_with_path(records, path),
        },
    decreases steps.len(),
{
    if steps.len() > 0 {
        let prev = scan_run(records, steps.drop_last());
        let step = steps.last();
        lemma_scan_run(records, steps.drop_last(), path);
        lemma_records_without_path_filter(prev, step.1, path);
        let kept = records_without_path(prev, step.1);
        assert(kept.push(step).drop_last() =~= kept);
        if step.1 == path {
            assert(records_with_path(kept, path) =~= Seq::<(Seq<char>, Seq<char>, Seq<char>)>::empty());
            assert(records_with_path(kept.push(step), path) =~= seq![step]);
        }
    }
}

/// The records whose path satisfies `keep`, in order.
pub open spec fn records_kept(
    records: Seq<(Seq<char>, Seq<char>, Seq<char>)>,
    keep: spec_fn(Seq<char>) -> bool,
) -> Seq<(Seq<char>, Seq<char>, Seq<char>)>
    decreases records.len(),
{
    if records.len() == 0 {
        records
    } else if keep(records.last().1) {
        records_kept(records.drop_last(), keep).push(records.last())
    } else {
        records_kept(records.drop_last(), keep)
    }
}

proof fn lemma_records_kept_without_path(
    records: Seq<(Seq<char>, Seq<char>, Seq<char>)>,
    path: Seq<char>,
    keep: spec_fn(Seq<char>) -> bool,
)
    requires
        !keep(path),
    ensures
        records_kept(records_without_path(records, path), keep) == records_kept(records, keep),
    decreases records.len(),
{
    if records.len() > 0 {
        lemma_records_kept_without_path(records.drop_last(), path, keep);
        let prev = records_without_path(records.drop_last(), path);
        if records.last().1 != path {
            assert(prev.push(records.last()).drop_last() =~= prev);
        }
    }
}

/// Law (a whole run of scans and the paths it did not scan): for any set of
/// paths that the run did not scan (`keep`), the records of those paths keep
/// their relative order and contents.
pub proof fn lemma_scan_run_keeps_unscanned(
    records: Seq<(Seq<char>, Seq<char>, Seq<char>)>,
    steps: Seq<(Seq<char>, Seq<char>, Seq<char>)>,
    keep: spec_fn(Seq<char>) -> bool,
)
    requires
        forall|k: int| 0 <= k < steps.len() ==> !keep(#[trigger] steps[k].1),
    ensures
        records_kept(scan_run(records, steps), keep) == records_kept(records, keep),
    decreases steps.len(),
{
    if steps.len() > 0 {
        let prev = scan_run(records, steps.drop_last());
        let step = steps.last();
        assert forall|k: int| 0 <= k < steps.drop_last().len() implies !keep(#[trigger] steps.drop_last()[k].1) by {
            assert(steps.drop_last()[k] == steps[k]);
        }
        lemma_scan_run_keeps_unscanned(records, steps.drop_last(), keep);
        assert(!keep(steps[steps.len() - 1].1));
        lemma_records_kept_without_path(prev, step.1, keep);
        let kept = records_without_path(prev, step.1);
        assert(kept.push(step).drop_last() =~= kept);
    }
}

/// The result of scanning one file against the baseline.
pub struct ScanOutcome {
    /// The file's hash disagrees with the baseline: an alert is due.
    pub mismatch: bool,
    /// The baseline to write back.
    pub records: Vec<HashRecord>,
}

/// Scans one file whose hash is `hash` against the baseline read as
/// `baseline` (`None` when it does not exist or could not be read): checks
/// the hash, deletes the file's entries, then appends its new record.
pub fn scan_file_step(baseline: Option<JsonDoc>, hash: &str, file_path: &str, timestamp: &str) -> (res: ScanOutcome)
    ensures
        res.mismatch == !hash_agrees(baseline, hash@, file_path@),
        record_views(res.records@) == (match baseline {
            Some(doc) => records_after_deletion(doc, file_path@),
            None => Seq::empty(),
        }).push((hash@, file_path@, timestamp@)),
{
    let mismatch = !hash_mismatch_checker(baseline.as_ref(), hash, file_path);
    let records = match baseline {
        Some(doc) => {
            let ghost before = doc;
            let deleted = delete_hash(doc, file_path);
            let records = write_hash(Some(&deleted), hash, file_path, timestamp);
            assert(records_or_empty(Some(deleted)) == records_after_deletion(before, file_path@));
            records
        },
        None => write_hash(None, hash, file_path, timestamp),
    };
    ScanOutcome { mismatch, records }
}

/// Scans one file against the baseline, stamping its new record with the
/// current time (see `scan_file_step`); `None` when the clock gives no time
/// stamp (it reads before 1970).
pub fn scan_file_step_now(baseline: Option<JsonDoc>, hash: &str, file_path: &str) -> (res: Option<ScanOutcome>)
    ensures
        res matches Some(outcome) ==> {
            &&& outcome.mismatch == !hash_agrees(baseline, hash@, file_path@)
            &&& appends_record(record_views(outcome.records@), match baseline {
                Some(doc) => records_after_deletion(doc, file_path@),
                None => Seq::empty(),
            }, hash@, file_path@)
        },
{
    match current_timestamp() {
        Some(timestamp) => {
            let ghost before = baseline;
            let outcome = scan_file_step(baseline, hash, file_path, timestamp.as_str());
            assert(record_views(outcome.records@).drop_last() =~= (match before {
                Some(doc) => records_after_deletion(doc, file_path@),
                None => Seq::empty(),
            }));
            Some(outcome)
        },
        None => None,
    }
}

} // verus!