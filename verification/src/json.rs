//! Text in JSON.

use vstd::prelude::*;

use crate::text;

verus! {

/// A small hexadecimal digit.
pub open spec fn hex_char(d: nat) -> char {
    if d < 10 {
        (48 + d) as char
    } else {
        (87 + d) as char
    }
}

/// What a character is written as inside a JSON string.
pub open spec fn char_text(c: char) -> Seq<char> {
    if c == '"' {
        seq!['\\', '"']
    } else if c == '\\' {
        seq!['\\', '\\']
    } else if c == '\u{8}' {
        seq!['\\', 'b']
    } else if c == '\t' {
        seq!['\\', 't']
    } else if c == '\n' {
        seq!['\\', 'n']
    } else if c == '\u{c}' {
        seq!['\\', 'f']
    } else if c == '\r' {
        seq!['\\', 'r']
    } else if c <= '\u{1f}' {
        seq!['\\', 'u', '0', '0', hex_char(c as nat / 16), hex_char(c as nat % 16)]
    } else {
        seq![c]
    }
}

/// A text as a JSON string, quotes and all.
pub open spec fn quoted(s: Seq<char>) -> Seq<char> {
    seq!['"'] + text::expanded(s, |c: char| char_text(c)) + seq!['"']
}

/// The text a JSON document stands for, if it is one string.
pub uninterp spec fn string_value(json: Seq<char>) -> Option<Seq<char>>;

/// Calls `serde_json::to_string` on a string. It writes the quotes, and the
/// quote, the backslash and the control characters as escapes; on a string it
/// never fails.
#[verifier::external_body]
pub(crate) fn quote(s: &str) -> (r: String)
    ensures
        r@ == quoted(s@),
{
    serde_json::to_string(s).unwrap_or_default()
}

/// Calls `serde_json::from_str::<String>`. Whether a document is one JSON string
/// and what it stands for depends on the document alone, and is called
/// `string_value` of it.
#[verifier::external_body]
pub(crate) fn read_string(json: &str) -> (r: Option<String>)
    ensures
        match r {
            Some(s) => string_value(json@) == Some(s@),
            None => string_value(json@) is None,
        },
{
    serde_json::from_str::<String>(json).ok()
}

/// What a page answered with, given what its answer reads as: the string it is,
/// or the answer as it stands.
pub fn inner_text(raw: String, read: Option<String>) -> (r: String)
    ensures
        r@ == match read {
            Some(text) => text@,
            None => raw@,
        },
{
    match read {
        Some(text) => text,
        None => raw,
    }
}

/// What a page answered with. An answer comes as JSON, and one that is itself a
/// string arrives quoted and escaped.
pub fn unquote(raw: String) -> (r: String)
    ensures
        r@ == match string_value(raw@) {
            Some(text) => text,
            None => raw@,
        },
{
    let read = read_string(raw.as_str());
    inner_text(raw, read)
}

/// A list of names and values as values.
pub open spec fn pairs(list: Seq<(String, String)>) -> Seq<(Seq<char>, Seq<char>)> {
    list.map_values(|p: (String, String)| (p.0@, p.1@))
}

/// The members of a JSON document, if it is one object: each name with its value
/// written as JSON, in the order of the names.
pub uninterp spec fn object_value(json: Seq<char>) -> Option<Seq<(Seq<char>, Seq<char>)>>;

/// Calls `serde_json::from_str` for a map from names to values, and
/// `Value::to_string` on each value. Both depend on the document alone, and what
/// they give is called `object_value` of it.
#[verifier::external_body]
pub(crate) fn read_object(json: &str) -> (r: Option<Vec<(String, String)>>)
    ensures
        match r {
            Some(members) => object_value(json@) == Some(pairs(members@)),
            None => object_value(json@) is None,
        },
{
    let members: std::collections::BTreeMap<String, serde_json::Value> =
        serde_json::from_str(json).ok()?;
    Some(members.into_iter().map(|(name, value)| (name, value.to_string())).collect())
}

/// Whether a text is a JSON document.
pub uninterp spec fn is_document(json: Seq<char>) -> bool;

/// The text a member of a JSON object is, if the document is an object with such
/// a member and that is a string.
pub uninterp spec fn member_text(json: Seq<char>, name: Seq<char>) -> Option<Seq<char>>;

/// The number a member of a JSON object is, if the document is an object with
/// such a member and that is a whole number from 0 to 2^64 - 1.
pub uninterp spec fn member_number(json: Seq<char>, name: Seq<char>) -> Option<u64>;

/// The items a member of a JSON object has, each written as JSON, if the document
/// is an object with such a member and that is an array.
pub uninterp spec fn member_items(json: Seq<char>, name: Seq<char>) -> Option<Seq<Seq<char>>>;

/// Calls `serde_json::from_str` for any value. Whether it succeeds depends on the
/// text alone, and is called `is_document` of it.
#[verifier::external_body]
pub(crate) fn reads(json: &str) -> (r: bool)
    ensures
        r == is_document(json@),
{
    serde_json::from_str::<serde_json::Value>(json).is_ok()
}

/// Calls `serde_json::from_str`, `Value::get` and `Value::as_str`. All depend on
/// the document and the name alone, and what they give is called `member_text`.
#[verifier::external_body]
pub(crate) fn text_of(json: &str, name: &str) -> (r: Option<String>)
    ensures
        match r {
            Some(s) => member_text(json@, name@) == Some(s@),
            None => member_text(json@, name@) is None,
        },
{
    let value: serde_json::Value = serde_json::from_str(json).ok()?;
    value.get(name)?.as_str().map(str::to_string)
}

/// Calls `serde_json::from_str`, `Value::get` and `Value::as_u64`. All depend on
/// the document and the name alone, and what they give is called
/// `member_number`.
#[verifier::external_body]
pub(crate) fn number_of(json: &str, name: &str) -> (r: Option<u64>)
    ensures
        r == member_number(json@, name@),
{
    let value: serde_json::Value = serde_json::from_str(json).ok()?;
    value.get(name)?.as_u64()
}

/// Calls `serde_json::from_str`, `Value::get` and `Value::as_array`, and
/// `Value::to_string` on each item. All depend on the document and the name
/// alone, and what they give is called `member_items`.
#[verifier::external_body]
pub(crate) fn items_of(json: &str, name: &str) -> (r: Option<Vec<String>>)
    ensures
        match r {
            Some(items) => member_items(json@, name@) == Some(text::texts(items@)),
            None => member_items(json@, name@) is None,
        },
{
    let value: serde_json::Value = serde_json::from_str(json).ok()?;
    let items = value.get(name)?.as_array()?;
    Some(items.iter().map(|item| item.to_string()).collect())
}

} // verus!
