//! JSON text, read and written by `serde_json`.

use serde_json::Value;
use vstd::prelude::*;

use crate::json::{Json, JsonModel, Number};

verus! {

/// A value in the form in which `serde_json` holds it.
#[verifier::external_type_specification]
#[verifier::external_body]
pub struct ExValue(serde_json::Value);

/// What `serde_json::from_str` reads from a text: the value, or the message of its error.
pub uninterp spec fn parsed_json(text: Seq<char>) -> Result<JsonModel, Seq<char>>;

/// The compact text that `serde_json::to_string` writes for a value.
pub uninterp spec fn compact_json(json: JsonModel) -> Seq<char>;

/// The indented text that `serde_json::to_string_pretty` writes for a value.
pub uninterp spec fn pretty_json(json: JsonModel) -> Seq<char>;

/// Turns a `serde_json::Value` into the value that it stands for. Nothing is claimed of it: it
/// is called only where `serde_json` has read a text.
#[verifier::external_body]
fn from_value(value: Value) -> Json {
    match value {
        Value::Null => Json::Null,
        Value::Bool(b) => Json::Bool(b),
        Value::Number(n) => match (n.as_u64(), n.as_i64()) {
            (Some(unsigned), _) => Json::Number(Number::Unsigned(unsigned)),
            (None, Some(signed)) => Json::Number(Number::Negative(signed)),
            (None, None) => Json::Number(Number::Decimal(n.to_string())),
        },
        Value::String(text) => Json::Str(text),
        Value::Array(items) => Json::Array(items.into_iter().map(from_value).collect()),
        Value::Object(members) => {
            Json::Object(members.into_iter().map(|(k, v)| (k, from_value(v))).collect())
        },
    }
}

/// Turns a value into the `serde_json::Value` that stands for it. Nothing is claimed of it: it
/// is called only where `serde_json` is to write a text.
#[verifier::external_body]
fn to_value(json: &Json) -> Value {
    match json {
        Json::Null => Value::Null,
        Json::Bool(b) => Value::Bool(*b),
        Json::Number(Number::Unsigned(n)) => Value::from(*n),
        Json::Number(Number::Negative(n)) => Value::from(*n),
        Json::Number(Number::Decimal(text)) => serde_json::from_str(text).unwrap_or_default(),
        Json::Str(text) => Value::String(text.clone()),
        Json::Array(items) => Value::Array(items.iter().map(to_value).collect()),
        Json::Object(members) => {
            Value::Object(members.iter().map(|(k, v)| (k.clone(), to_value(v))).collect())
        },
    }
}

/// `serde_json::from_str`: the result depends on the text alone.
#[verifier::external_body]
fn read_json(text: &str) -> (r: Result<Json, String>)
    ensures
        match r {
            Ok(json) => parsed_json(text@) == Ok::<JsonModel, Seq<char>>(json.deep_view()),
            Err(error) => parsed_json(text@) == Err::<JsonModel, Seq<char>>(error@),
        },
{
    match serde_json::from_str::<Value>(text) {
        Ok(value) => Ok(from_value(value)),
        Err(error) => Err(error.to_string()),
    }
}

/// `serde_json::to_string`: the text depends on the value alone. Writing a value that holds no
/// map with keys other than strings does not fail.
#[verifier::external_body]
fn write_json(json: &Json) -> (r: String)
    ensures
        r@ == compact_json(json.deep_view()),
{
    serde_json::to_string(&to_value(json)).unwrap_or_default()
}

/// `serde_json::to_string_pretty`: the text depends on the value alone. Writing a value that
/// holds no map with keys other than strings does not fail.
#[verifier::external_body]
fn write_json_pretty(json: &Json) -> (r: String)
    ensures
        r@ == pretty_json(json.deep_view()),
{
    serde_json::to_string_pretty(&to_value(json)).unwrap_or_default()
}

impl Json {
    /// Reads a JSON text.
    pub fn parse(text: &str) -> (r: Result<Json, String>)
        ensures
            match r {
                Ok(json) => parsed_json(text@) == Ok::<JsonModel, Seq<char>>(json.deep_view()),
                Err(error) => parsed_json(text@) == Err::<JsonModel, Seq<char>>(error@),
            },
    {
        read_json(text)
    }

    /// The value as compact JSON text.
    pub fn to_text(&self) -> (r: String)
        ensures
            r@ == compact_json(self.deep_view()),
    {
        write_json(self)
    }

    /// The value as indented JSON text.
    pub fn to_pretty_text(&self) -> (r: String)
        ensures
            r@ == pretty_json(self.deep_view()),
    {
        write_json_pretty(self)
    }
}

} // verus!
