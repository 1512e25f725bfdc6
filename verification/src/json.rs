//! JSON text, read and written by `serde_json`.

use vstd::prelude::*;
use crate::text::one_line;

verus! {

/// The failure that `serde_json` reports for a text it cannot read.
#[verifier::external_type_specification]
#[verifier::external_body]
pub struct ExJsonError(serde_json::Error);

/// A value of a field of a JSON object, as far as a task record looks into it.
#[derive(Debug)]
pub enum JsonValue {
    /// `null`.
    Null,
    /// `true` or `false`.
    Bool(bool),
    /// A number: the integer it is, or `None` where it is no integer or does not fit in 64 bits.
    Number(Option<i64>),
    /// A string.
    Text(String),
    /// An array, whatever it holds.
    Array,
    /// An object, whatever it holds.
    Object,
}

/// What a `JsonValue` stands for.
pub enum JsonData {
    Null,
    Bool(bool),
    Number(Option<i64>),
    Text(Seq<char>),
    Array,
    Object,
}

impl View for JsonValue {
    type V = JsonData;

    open spec fn view(&self) -> JsonData {
        match self {
            JsonValue::Null => JsonData::Null,
            JsonValue::Bool(b) => JsonData::Bool(*b),
            JsonValue::Number(n) => JsonData::Number(*n),
            JsonValue::Text(s) => JsonData::Text(s@),
            JsonValue::Array => JsonData::Array,
            JsonValue::Object => JsonData::Object,
        }
    }
}

impl DeepView for JsonValue {
    type V = JsonData;

    open spec fn deep_view(&self) -> JsonData {
        self@
    }
}

/// The fields of the JSON object that `text` holds, each with its name, as `serde_json` reads
/// them; `None` where `serde_json` does not read `text` as one JSON object.
pub uninterp spec fn json_object_entries(text: Seq<char>) -> Option<Seq<(Seq<char>, JsonData)>>;

/// The JSON string literal that `serde_json` writes for the string `s`: `s` between double
/// quotes, with escapes where JSON asks for them.
pub uninterp spec fn json_quoted(s: Seq<char>) -> Seq<char>;

/// Calls `serde_json::from_str` to read `line` as a map from names to values, and hands the
/// entries out one for one, a number as the integer that `Number::as_i64` gives for it. The
/// contract gives the outcome a name and claims nothing more: that it depends on the characters
/// of `line` alone.
#[verifier::external_body]
pub(crate) fn parse_object(line: &str) -> (r: Result<Vec<(String, JsonValue)>, serde_json::Error>)
    ensures
        match r {
            Ok(entries) => json_object_entries(line@) == Some(entries.deep_view()),
            Err(_) => json_object_entries(line@) is None,
        },
{
    let map = serde_json::from_str::<serde_json::Map<String, serde_json::Value>>(line)?;
    Ok(map.into_iter().map(|(name, value)| (name, match value {
        serde_json::Value::Null => JsonValue::Null,
        serde_json::Value::Bool(b) => JsonValue::Bool(b),
        serde_json::Value::Number(n) => JsonValue::Number(n.as_i64()),
        serde_json::Value::String(s) => JsonValue::Text(s),
        serde_json::Value::Array(_) => JsonValue::Array,
        serde_json::Value::Object(_) => JsonValue::Object,
    })).collect())
}

/// Calls `serde_json` to write the string `s` as a JSON string literal: `Value::from` makes the
/// JSON string and its `to_string` writes it. The contract gives the text a name, which claims
/// that it depends on the characters of `s` alone, and claims one thing more, which the escape
/// table of `serde_json` shows: every character below the blank is written as an escape, so the
/// literal holds no line feed.
#[verifier::external_body]
pub(crate) fn quote(s: &str) -> (r: String)
    ensures
        r@ == json_quoted(s@),
        one_line(r@),
{
    serde_json::Value::from(s).to_string()
}

} // verus!
