//! JSON documents.

use vstd::prelude::*;

use crate::text;
use crate::text::same;

verus! {

/// A JSON document.
#[derive(Debug, PartialEq)]
pub enum Json {
    Null,
    Bool(bool),
    /// A number, as it is written.
    Number(String),
    Text(String),
    List(Vec<Json>),
    /// Fields with their values; no field occurs twice.
    Fields(Vec<(String, Json)>),
}

#[verifier::external_type_specification]
#[verifier::external_body]
pub struct ExJsonValue(serde_json::Value);

#[verifier::external_type_specification]
#[verifier::external_body]
pub struct ExJsonError(serde_json::Error);

/// The document that a value of `serde_json` holds.
pub uninterp spec fn value_json(value: serde_json::Value) -> Json;

/// What an error of `serde_json` says.
pub uninterp spec fn error_text(error: serde_json::Error) -> Seq<char>;

/// The document that a text holds, or what is wrong with it.
pub uninterp spec fn json_in_text(text: Seq<char>) -> Result<Json, Seq<char>>;

/// The document that bytes hold, or what is wrong with them.
pub uninterp spec fn json_in_bytes(bytes: Seq<u8>) -> Result<Json, Seq<char>>;

/// Calls `serde_json::from_str`: it succeeds on the text of one JSON document, and
/// gives its value. Otherwise its error says what is wrong, and where, which depends
/// on the text alone.
#[verifier::external_body]
fn read_text(text: &str) -> (value: Result<serde_json::Value, serde_json::Error>)
    ensures
        match value {
            Ok(found) => json_in_text(text@) == Ok::<Json, Seq<char>>(value_json(found)),
            Err(error) => json_in_text(text@) == Err::<Json, Seq<char>>(error_text(error)),
        },
{
    serde_json::from_str(text)
}

/// Calls `serde_json::from_slice`: it succeeds on the bytes of one JSON document,
/// and gives its value. Otherwise its error says what is wrong, and where, which
/// depends on the bytes alone.
#[verifier::external_body]
fn read_bytes(bytes: &[u8]) -> (value: Result<serde_json::Value, serde_json::Error>)
    ensures
        match value {
            Ok(found) => json_in_bytes(bytes@) == Ok::<Json, Seq<char>>(value_json(found)),
            Err(error) => json_in_bytes(bytes@) == Err::<Json, Seq<char>>(error_text(error)),
        },
{
    serde_json::from_slice(bytes)
}

/// Takes a `serde_json::Value` apart, variant by variant: lists keep their order,
/// fields come in the order in which `serde_json::Map` is walked, and a number is
/// what its `Display` writes.
#[verifier::external_body]
fn document(value: serde_json::Value) -> (json: Json)
    ensures
        json == value_json(value),
{
    match value {
        serde_json::Value::Null => Json::Null,
        serde_json::Value::Bool(flag) => Json::Bool(flag),
        serde_json::Value::Number(number) => Json::Number(number.to_string()),
        serde_json::Value::String(text) => Json::Text(text),
        serde_json::Value::Array(items) => Json::List(items.into_iter().map(document).collect()),
        serde_json::Value::Object(fields) => Json::Fields(
            fields.into_iter().map(|(key, item)| (key, document(item))).collect(),
        ),
    }
}

/// Calls the `Display` of `serde_json::Error`, which says what is wrong and where.
/// The words are a function of the error.
#[verifier::external_body]
fn error_words(error: &serde_json::Error) -> (words: String)
    ensures
        words@ == error_text(*error),
{
    error.to_string()
}

/// The document that was read, where one was.
pub open spec fn document_read(read: Result<Json, Seq<char>>) -> Option<Json> {
    match read {
        Ok(document) => Some(document),
        Err(_) => None,
    }
}

/// The document that a text holds, or what is wrong with it.
pub fn parse_json(text: &str) -> (json: Result<Json, String>)
    ensures
        match json {
            Ok(found) => json_in_text(text@) == Ok::<Json, Seq<char>>(found),
            Err(fault) => json_in_text(text@) == Err::<Json, Seq<char>>(fault@),
        },
{
    match read_text(text) {
        Ok(value) => Ok(document(value)),
        Err(error) => Err(error_words(&error)),
    }
}

/// The document that bytes hold, or what is wrong with them.
pub fn parse_json_bytes(bytes: &[u8]) -> (json: Result<Json, String>)
    ensures
        match json {
            Ok(found) => json_in_bytes(bytes@) == Ok::<Json, Seq<char>>(found),
            Err(fault) => json_in_bytes(bytes@) == Err::<Json, Seq<char>>(fault@),
        },
{
    match read_bytes(bytes) {
        Ok(value) => Ok(document(value)),
        Err(error) => Err(error_words(&error)),
    }
}

/// The first field with a name, counted from `from`.
pub open spec fn field_at(fields: Seq<(String, Json)>, name: Seq<char>, from: int) -> Option<int>
    decreases fields.len() - from,
{
    if from < 0 || from >= fields.len() {
        None
    } else if fields[from].0@ == name {
        Some(from)
    } else {
        field_at(fields, name, from + 1)
    }
}

/// The value of a field of a document.
pub open spec fn field_of(json: Json, name: Seq<char>) -> Option<Json> {
    match json {
        Json::Fields(fields) => match field_at(fields@, name, 0) {
            Some(at) => Some(fields@[at].1),
            None => None,
        },
        _ => None,
    }
}

/// The text of a document that is one.
pub open spec fn text_of(json: Option<Json>) -> Option<Seq<char>> {
    match json {
        Some(Json::Text(value)) => Some(value@),
        _ => None,
    }
}

pub(crate) fn find_field(fields: &Vec<(String, Json)>, name: &str) -> (found: Option<usize>)
    ensures
        match field_at(fields@, name@, 0) {
            Some(at) => found is Some && found->0 == at && 0 <= at < fields@.len(),
            None => found is None,
        },
{
    let mut i: usize = 0;
    while i < fields.len()
        invariant
            i <= fields@.len(),
            field_at(fields@, name@, 0) == field_at(fields@, name@, i as int),
        decreases fields@.len() - i,
    {
        if same(fields[i].0.as_str(), name) {
            return Some(i);
        }
        i = i + 1;
    }
    None
}

impl Json {
    /// The value of a field.
    pub fn field(&self, name: &str) -> (value: Option<&Json>)
        ensures
            match value {
                Some(found) => field_of(*self, name@) == Some(*found),
                None => field_of(*self, name@) is None,
            },
    {
        match self {
            Json::Fields(fields) => match find_field(fields, name) {
                Some(at) => Some(&fields[at].1),
                None => None,
            },
            _ => None,
        }
    }

    /// The text, where the document is one.
    pub fn as_text(&self) -> (value: Option<&str>)
        ensures
            text::opt_ref(value) == text_of(Some(*self)),
    {
        match self {
            Json::Text(value) => Some(value.as_str()),
            _ => None,
        }
    }
}

} // verus!
