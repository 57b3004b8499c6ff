//! The shape of the JSON documents that the monitor keeps on disk.
//!
//! Every file the monitor writes (the baseline of hashes, the alert log, the
//! list of monitored paths) is a JSON array of objects whose interesting
//! members are strings. A `JsonDoc` holds a parsed document at that depth:
//! the top-level array, its objects and their string members are plain
//! values that the logic reads; anything deeper, or of another kind, is
//! carried through untouched as a `serde_json::Value`.

use vstd::prelude::*;
use crate::text::str_equal;
use crate::digest::hex_digit;

verus! {

/// Declares `serde_json::Value` to Verus as an opaque type: parts of a
/// document that the logic does not read are carried as such values.
#[verifier::external_type_specification]
#[verifier::external_body]
pub struct ExJsonValue(serde_json::Value);

/// Declares `serde_json::Error` to Verus as an opaque type.
#[verifier::external_type_specification]
#[verifier::external_body]
pub struct ExJsonError(serde_json::Error);

/// The value of one member of an object.
pub enum JsonField {
    /// A JSON string.
    Text(String),
    /// Any other JSON value, kept as it was parsed.
    Other(serde_json::Value),
}

/// One `"key": value` member of an object.
pub struct JsonMember {
    pub key: String,
    pub value: JsonField,
}

/// One element of the top-level array (or a top-level value that is placed
/// into an array).
pub enum JsonItem {
    /// A JSON object; its members in order. A lookup by key takes the first
    /// member with that key, and so does writing the object out.
    Object(Vec<JsonMember>),
    /// A JSON array.
    List(Vec<JsonField>),
    /// Any other JSON value (string, number, boolean, null).
    Other(serde_json::Value),
}

/// A whole JSON document.
pub enum JsonDoc {
    /// A JSON array.
    Array(Vec<JsonItem>),
    /// A JSON object.
    Object(Vec<JsonMember>),
    /// Any other JSON value.
    Other(serde_json::Value),
}

impl JsonField {
    /// The string held by the field, if it is a JSON string.
    pub open spec fn text(self) -> Option<Seq<char>> {
        match self {
            JsonField::Text(s) => Some(s@),
            JsonField::Other(_) => None,
        }
    }
}

/// The value of the first member named `key`, if any (`Map::get`).
pub open spec fn member_value(members: Seq<JsonMember>, key: Seq<char>) -> Option<JsonField>
    decreases members.len(),
{
    if members.len() == 0 {
        None
    } else if members[0].key@ == key {
        Some(members[0].value)
    } else {
        member_value(members.drop_first(), key)
    }
}

/// The string value of member `key` of an object (`get(key)` followed by
/// `as_str()`): `None` when the member is missing or not a string.
pub open spec fn member_text(members: Seq<JsonMember>, key: Seq<char>) -> Option<Seq<char>> {
    match member_value(members, key) {
        Some(field) => field.text(),
        None => None,
    }
}

/// The string value of member `key` of an item; `None` when the item is not
/// an object, or the member is missing or not a string.
pub open spec fn item_text(item: JsonItem, key: Seq<char>) -> Option<Seq<char>> {
    match item {
        JsonItem::Object(members) => member_text(members@, key),
        _ => None,
    }
}

/// Finds the first member named `key`.
pub fn find_member<'a>(members: &'a Vec<JsonMember>, key: &str) -> (res: Option<&'a JsonField>)
    ensures
        match res {
            Some(field) => member_value(members@, key@) == Some(*field),
            None => member_value(members@, key@) is None,
        },
{
    let mut i: usize = 0;
    assert(members@.subrange(0, members@.len() as int) =~= members@);
    while i < members.len()
        invariant
            i <= members@.len(),
            member_value(members@, key@) == member_value(members@.subrange(i as int, members@.len() as int), key@),
        decreases members@.len() - i,
    {
        let ghost rest = members@.subrange(i as int, members@.len() as int);
        assert(rest.drop_first() =~= members@.subrange(i + 1, members@.len() as int));
        if str_equal(members[i].key.as_str(), key) {
            return Some(&members[i].value);
        }
        i = i + 1;
    }
    None
}

/// The string value of member `key` of `item`, if the item is an object and
/// that member is a string.
pub fn text_member<'a>(item: &'a JsonItem, key: &str) -> (res: Option<&'a String>)
    ensures
        match res {
            Some(s) => item_text(*item, key@) == Some(s@),
            None => item_text(*item, key@) is None,
        },
{
    match item {
        JsonItem::Object(members) => match find_member(members, key) {
            Some(JsonField::Text(s)) => Some(s),
            _ => None,
        },
        _ => None,
    }
}

/// A member whose value is a string.
pub fn text_field(key: &str, value: &str) -> (res: JsonMember)
    ensures
        res.key@ == key@,
        res.value.text() == Some(value@),
{
    JsonMember { key: key.to_owned(), value: JsonField::Text(value.to_owned()) }
}

/// How one character is written inside a JSON string: `"` and `\` are
/// escaped with a backslash; backspace, tab, line feed, form feed and
/// carriage return as `\b \t \n \f \r`; every other character below
/// U+0020 as `\u00xx` with lower-case hexadecimal digits; anything else as
/// itself.
pub open spec fn json_escape_char(c: char) -> Seq<char> {
    if c == '"' {
        seq!['\\', '"']
    } else if c == '\\' {
        seq!['\\', '\\']
    } else if c == '\u{8}' {
        seq!['\\', 'b']
    } else if c == '\t' {
        seq!['\\', 't']
    } else if c == '\n' {
        seq!['\\', 'n']
    } else if c == '\u{c}' {
        seq!['\\', 'f']
    } else if c == '\r' {
        seq!['\\', 'r']
    } else if (c as u32) < 0x20 {
        seq!['\\', 'u', '0', '0', hex_digit((c as u8) / 16), hex_digit((c as u8) % 16)]
    } else {
        seq![c]
    }
}

/// The characters of `s`, each written as in `json_escape_char`.
pub open spec fn json_escaped(s: Seq<char>) -> Seq<char>
    decreases s.len(),
{
    if s.len() == 0 {
        Seq::empty()
    } else {
        json_escaped(s.drop_last()) + json_escape_char(s.last())
    }
}

/// The JSON text of the string `s`: its escaped characters between double
/// quotes.
pub open spec fn json_string_literal(s: Seq<char>) -> Seq<char> {
    seq!['"'] + json_escaped(s) + seq!['"']
}

/// A string with no quote, backslash or control character is written as
/// itself between double quotes (so `Modify` is shown as `"Modify"`).
pub proof fn lemma_plain_string_literal(s: Seq<char>)
    requires
        forall|i: int| 0 <= i < s.len() ==> {
            let c = #[trigger] s[i];
            c != '"' && c != '\\' && (c as u32) >= 0x20
        },
    ensures
        json_escaped(s) == s,
        json_string_literal(s) == seq!['"'] + s + seq!['"'],
    decreases s.len(),
{
    if s.len() > 0 {
        let prefix = s.drop_last();
        assert forall|i: int| 0 <= i < prefix.len() implies {
            let c = #[trigger] prefix[i];
            c != '"' && c != '\\' && (c as u32) >= 0x20
        } by {
            assert(prefix[i] == s[i]);
        }
        lemma_plain_string_literal(prefix);
        let c = s[s.len() - 1];
        assert(c != '"' && c != '\\' && (c as u32) >= 0x20);
        assert(json_escape_char(c) == seq![c]);
        assert(s =~= prefix.push(c));
    }
}

/// Calls `serde_json::to_string` on a string slice. Trusted: the result is
/// `Ok` (the serializer writes into a `Vec`, which cannot fail) and holds
/// `json_string_literal` of the characters passed in.
#[verifier::external_body]
fn quote_json_string(s: &str) -> (res: Result<String, serde_json::Error>)
    ensures
        res is Ok,
        res.unwrap()@ == json_string_literal(s@),
{
    serde_json::to_string(s)
}

/// Calls `Display::fmt` of `serde_json::Value`: the compact JSON text of the
/// value. The text is left unstated; the value is carried opaquely.
#[verifier::external_body]
fn display_json_value(value: &serde_json::Value) -> String {
    value.to_string()
}

/// `text` is what `serde_json` displays for member `key` of `item`
/// (`item[key]`): the quoted string when the member is a string, `null` when
/// the item is not an object or has no such member; for a member of another
/// kind any text is allowed (it is the compact JSON of that value).
pub open spec fn member_shown(item: JsonItem, key: Seq<char>, text: Seq<char>) -> bool {
    match item {
        JsonItem::Object(members) => match member_value(members@, key) {
            Some(JsonField::Text(s)) => text == json_string_literal(s@),
            Some(JsonField::Other(_)) => true,
            None => text == "null"@,
        },
        _ => text == "null"@,
    }
}

/// The JSON text of member `key` of `item`, as `item[key]` displays.
pub fn show_member(item: &JsonItem, key: &str) -> (res: String)
    ensures
        member_shown(*item, key@, res@),
{
    match item {
        JsonItem::Object(members) => match find_member(members, key) {
            Some(JsonField::Text(s)) => match quote_json_string(s.as_str()) {
                Ok(text) => text,
                Err(_) => "null".to_owned(),
            },
            Some(JsonField::Other(v)) => display_json_value(v),
            None => "null".to_owned(),
        },
        _ => "null".to_owned(),
    }
}

} // verus!
