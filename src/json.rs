//! A JSON document as plain values, and reading members out of it.
use crate::numeric::same_text;
use vstd::prelude::*;

verus! {

#[verifier::external_type_specification]
#[verifier::external_body]
pub struct ExValue(serde_json::Value);

/// A JSON value. Numbers keep the text that serde_json writes for them.
#[derive(Debug)]
pub enum Json {
    Null,
    Bool(bool),
    Number(String),
    Str(String),
    Array(Vec<Json>),
    Object(Vec<(String, Json)>),
}

/// The value that a JSON text parses to, or `None` where it is not JSON.
pub uninterp spec fn json_of(text: Seq<char>) -> Option<Json>;

/// Relies on `serde_json::from_str` into `serde_json::Value`: whether the text
/// is one JSON value, and which, depends on the text alone.
#[verifier::external_body]
pub(crate) fn parse_json(text: &str) -> (r: Option<Json>)
    ensures
        r == json_of(text@),
{
    serde_json::from_str::<serde_json::Value>(text).ok().map(json_from_value)
}

/// Moves each variant of `serde_json::Value` into the matching variant of
/// `Json`, for `parse_json`.
#[verifier::external_body]
fn json_from_value(v: serde_json::Value) -> Json {
    match v {
        serde_json::Value::Null => Json::Null,
        serde_json::Value::Bool(b) => Json::Bool(b),
        serde_json::Value::Number(n) => Json::Number(n.to_string()),
        serde_json::Value::String(s) => Json::Str(s),
        serde_json::Value::Array(a) => Json::Array(a.into_iter().map(json_from_value).collect()),
        serde_json::Value::Object(m) => Json::Object(
            m.into_iter().map(|(k, x)| (k, json_from_value(x))).collect(),
        ),
    }
}

/// The value under the first entry named `key`.
pub open spec fn entry_value(fields: Seq<(String, Json)>, key: Seq<char>) -> Option<Json>
    decreases fields.len(),
{
    if fields.len() == 0 {
        None
    } else if fields[0].0@ == key {
        Some(fields[0].1)
    } else {
        entry_value(fields.drop_first(), key)
    }
}

/// The member `key` of an object; `None` for a value that is no object.
pub open spec fn member(doc: Json, key: Seq<char>) -> Option<Json> {
    match doc {
        Json::Object(fields) => entry_value(fields@, key),
        _ => None,
    }
}

/// The member `key` where it is a string.
pub open spec fn text_member(doc: Json, key: Seq<char>) -> Option<Seq<char>> {
    match member(doc, key) {
        Some(Json::Str(s)) => Some(s@),
        _ => None,
    }
}

/// The member `key` where it is an array.
pub open spec fn array_member(doc: Json, key: Seq<char>) -> Option<Seq<Json>> {
    match member(doc, key) {
        Some(Json::Array(a)) => Some(a@),
        _ => None,
    }
}

fn entry_index(fields: &Vec<(String, Json)>, key: &str) -> (r: Option<usize>)
    ensures
        match r {
            Some(i) => i < fields@.len() && entry_value(fields@, key@) == Some(fields@[i as int].1),
            None => entry_value(fields@, key@) is None,
        },
{
    let mut i: usize = 0;
    assert(fields@.skip(0) =~= fields@);
    while i < fields.len()
        invariant
            i <= fields@.len(),
            entry_value(fields@, key@) == entry_value(fields@.skip(i as int), key@),
        decreases fields@.len() - i,
    {
        let ghost rest = fields@.skip(i as int);
        assert(rest[0] == fields@[i as int]);
        if same_text(fields[i].0.as_str(), key) {
            return Some(i);
        }
        assert(rest.drop_first() =~= fields@.skip(i + 1));
        i = i + 1;
    }
    assert(fields@.skip(i as int).len() == 0);
    None
}

/// The member `key` of `doc` where it is a string.
pub fn get_text<'a>(doc: &'a Json, key: &str) -> (r: Option<&'a String>)
    ensures
        match r {
            Some(s) => text_member(*doc, key@) == Some(s@),
            None => text_member(*doc, key@) is None,
        },
{
    match doc {
        Json::Object(fields) => match entry_index(fields, key) {
            Some(i) => match &fields[i].1 {
                Json::Str(s) => Some(s),
                _ => None,
            },
            None => None,
        },
        _ => None,
    }
}

/// The member `key` of `doc` where it is an array.
pub fn get_array<'a>(doc: &'a Json, key: &str) -> (r: Option<&'a Vec<Json>>)
    ensures
        match r {
            Some(a) => array_member(*doc, key@) == Some(a@),
            None => array_member(*doc, key@) is None,
        },
{
    match doc {
        Json::Object(fields) => match entry_index(fields, key) {
            Some(i) => match &fields[i].1 {
                Json::Array(a) => Some(a),
                _ => None,
            },
            None => None,
        },
        _ => None,
    }
}

} // verus!
