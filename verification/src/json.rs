//! Reading JSON text.

use crate::text::str_of;
use vstd::prelude::*;

verus! {

/// A value that `serde_json` has read.
#[verifier::external_type_specification]
#[verifier::external_body]
pub struct ExValue(serde_json::Value);

/// A number in JSON text.
pub struct JsonNumber {
    /// The number, where it is a whole one that a `u64` holds.
    pub whole: Option<u64>,
    /// The bits of the double-precision number next to it.
    pub bits: Option<u64>,
}

/// What a JSON value holds.
pub enum Json {
    Null,
    Bool(bool),
    Number(JsonNumber),
    Text(Seq<char>),
    List(Seq<Json>),
    Table(Map<Seq<char>, Json>),
}

impl Json {
    /// The member of a table under `key`; null where there is none, or where this is no table.
    pub open spec fn member(self, key: Seq<char>) -> Json {
        match self {
            Json::Table(members) => if members.dom().contains(key) {
                members[key]
            } else {
                Json::Null
            },
            _ => Json::Null,
        }
    }

    /// The text, where this is one.
    pub open spec fn text(self) -> Option<Seq<char>> {
        match self {
            Json::Text(text) => Some(text),
            _ => None,
        }
    }

    /// The whole number, where this is one that a `u64` holds.
    pub open spec fn whole(self) -> Option<u64> {
        match self {
            Json::Number(number) => number.whole,
            _ => None,
        }
    }

    /// The bits of the double-precision number, where this is a number.
    pub open spec fn bits(self) -> Option<u64> {
        match self {
            Json::Number(number) => number.bits,
            _ => None,
        }
    }

    /// The items, where this is a list.
    pub open spec fn items(self) -> Option<Seq<Json>> {
        match self {
            Json::List(items) => Some(items),
            _ => None,
        }
    }
}

/// What a value of `serde_json` holds.
pub uninterp spec fn json_of(value: serde_json::Value) -> Json;

/// What `serde_json` reads from text, or the text of the error that it reports.
pub uninterp spec fn json_read(text: Seq<char>) -> Result<Json, Seq<char>>;

/// Calls `serde_json::from_str`, and `to_string` on its error. Claims that what is read, and
/// else the text of the error, depends on the text alone.
#[verifier::external_body]
pub(crate) fn parse_json(text: &str) -> (read: Result<serde_json::Value, String>)
    ensures
        match read {
            Ok(value) => json_read(text@) == Ok::<Json, Seq<char>>(json_of(value)),
            Err(error) => json_read(text@) == Err::<Json, Seq<char>>(error@),
        },
{
    serde_json::from_str(text).map_err(|e: serde_json::Error| e.to_string())
}

/// Calls `index` of `serde_json::Value` with a string. Claims that it gives the member of an
/// object under that key, and null in every other case.
#[verifier::external_body]
pub(crate) fn json_member<'a>(value: &'a serde_json::Value, key: &str) -> (member:
    &'a serde_json::Value)
    ensures
        json_of(*member) == json_of(*value).member(key@),
{
    &value[key]
}

/// Calls `serde_json::Value::as_str`. Claims that it gives the text of a string and nothing for
/// any other value.
#[verifier::external_body]
pub(crate) fn json_text<'a>(value: &'a serde_json::Value) -> (text: Option<&'a str>)
    ensures
        str_of(text) == json_of(*value).text(),
{
    value.as_str()
}

/// Calls `serde_json::Value::as_u64`. Claims that it gives a whole number that fits and nothing
/// for any other value.
#[verifier::external_body]
pub(crate) fn json_whole(value: &serde_json::Value) -> (number: Option<u64>)
    ensures
        number == json_of(*value).whole(),
{
    value.as_u64()
}

/// Calls `serde_json::Value::as_f64` and takes the bits of the result. Claims that it gives those
/// of a number and nothing for any other value.
#[verifier::external_body]
pub(crate) fn json_bits(value: &serde_json::Value) -> (bits: Option<u64>)
    ensures
        bits == json_of(*value).bits(),
{
    value.as_f64().map(|number| number.to_bits())
}

/// Calls `serde_json::Value::as_array`. Claims that it gives the items of an array, in order, and
/// nothing for any other value.
#[verifier::external_body]
pub(crate) fn json_items<'a>(value: &'a serde_json::Value) -> (items: Option<
    &'a Vec<serde_json::Value>,
>)
    ensures
        match items {
            Some(list) => json_of(*value).items() == Some(
                list@.map_values(|item: serde_json::Value| json_of(item)),
            ),
            None => json_of(*value).items() is None,
        },
{
    value.as_array()
}

} // verus!
