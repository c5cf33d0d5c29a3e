//! JSON documents, read through `serde_json`.

use vstd::prelude::*;

use crate::figure::Figure;

verus! {

/// `serde_json::Value`, a JSON document.
#[verifier::external_type_specification]
#[verifier::external_body]
pub struct ExValue(serde_json::Value);

/// What a JSON document holds.
pub enum Json {
    Null,
    Bool(bool),
    /// A number as a figure, and as a whole number where it is written as one
    /// that is not negative and fits.
    Number { figure: Figure, natural: Option<u64> },
    Text(Seq<char>),
    List(Seq<Json>),
    Object(Map<Seq<char>, Json>),
}

/// What a `serde_json::Value` holds.
pub uninterp spec fn json_of(value: serde_json::Value) -> Json;

/// What `serde_json` reads a text as; nothing where the text is not JSON.
pub uninterp spec fn json_read(text: Seq<char>) -> Option<Json>;

/// What each document of a list holds.
pub open spec fn jsons(list: Seq<serde_json::Value>) -> Seq<Json> {
    list.map_values(|value: serde_json::Value| json_of(value))
}

/// The member of an object; nothing where the document is no object or has no
/// such member.
pub open spec fn member(document: Json, key: Seq<char>) -> Option<Json> {
    match document {
        Json::Object(members) => if members.contains_key(key) {
            Some(members[key])
        } else {
            None
        },
        _ => None,
    }
}

/// The member of an optional document.
pub open spec fn member_of(document: Option<Json>, key: Seq<char>) -> Option<Json> {
    match document {
        Some(found) => member(found, key),
        None => None,
    }
}

/// The text of an optional document; nothing where it is no text.
pub open spec fn text_in(document: Option<Json>) -> Option<Seq<char>> {
    match document {
        Some(Json::Text(text)) => Some(text),
        _ => None,
    }
}

/// The whole number of an optional document.
pub open spec fn natural_in(document: Option<Json>) -> Option<u64> {
    match document {
        Some(Json::Number { figure, natural }) => natural,
        _ => None,
    }
}

/// The figure of an optional document.
pub open spec fn figure_in(document: Option<Json>) -> Option<Figure> {
    match document {
        Some(Json::Number { figure, natural }) => Some(figure),
        _ => None,
    }
}

/// The documents of a list; nothing where the document is no list.
pub open spec fn list_in(document: Option<Json>) -> Option<Seq<Json>> {
    match document {
        Some(Json::List(list)) => Some(list),
        _ => None,
    }
}

/// What an optional reference to a document holds.
pub open spec fn held_by(value: Option<&serde_json::Value>) -> Option<Json> {
    match value {
        Some(v) => Some(json_of(*v)),
        None => None,
    }
}

/// `serde_json::from_str`: a document where the text is JSON, and nothing
/// where it is not. What it holds follows from the text alone.
#[verifier::external_body]
pub(crate) fn read_json(text: &str) -> (res: Option<serde_json::Value>)
    ensures
        match res {
            Some(value) => json_read(text@) == Some(json_of(value)),
            None => json_read(text@) is None,
        },
{
    serde_json::from_str::<serde_json::Value>(text).ok()
}

/// `Value::get` with a text: the member of an object under that key.
#[verifier::external_body]
pub(crate) fn json_get<'a>(value: &'a serde_json::Value, key: &str) -> (res: Option<
    &'a serde_json::Value,
>)
    ensures
        held_by(res) == member(json_of(*value), key@),
{
    value.get(key)
}

/// `Value::as_array`: the documents of a list, in order.
#[verifier::external_body]
pub(crate) fn json_list<'a>(value: &'a serde_json::Value) -> (res: Option<
    &'a Vec<serde_json::Value>,
>)
    ensures
        match res {
            Some(list) => list_in(Some(json_of(*value))) == Some(jsons(list@)),
            None => list_in(Some(json_of(*value))) is None,
        },
{
    value.as_array()
}

/// `Value::as_str`: the text of a text.
#[verifier::external_body]
pub(crate) fn json_text<'a>(value: &'a serde_json::Value) -> (res: Option<&'a str>)
    ensures
        match res {
            Some(text) => text_in(Some(json_of(*value))) == Some(text@),
            None => text_in(Some(json_of(*value))) is None,
        },
{
    value.as_str()
}

/// `Value::as_u64`: a number that is written whole, is not negative and fits.
#[verifier::external_body]
pub(crate) fn json_natural(value: &serde_json::Value) -> (res: Option<u64>)
    ensures
        res == natural_in(Some(json_of(*value))),
{
    value.as_u64()
}

/// `Value::as_f64`: any number, as the nearest figure.
#[verifier::external_body]
pub(crate) fn json_figure(value: &serde_json::Value) -> (res: Option<Figure>)
    ensures
        res == figure_in(Some(json_of(*value))),
{
    value.as_f64().map(|number| Figure { bits: number.to_bits() })
}

} // verus!
