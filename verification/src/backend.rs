//! The serializers and the parser that this library builds on. Nothing in this
//! file is proved: each item states what the named function of `serde_json`,
//! `serde_yaml` or `quick_xml` is taken to do.

use vstd::prelude::*;
use crate::error::{ParseError, ParseErrorKind, ParseFailure, Position};
use crate::value::{JsonModel, JsonValue};

verus! {

/// `serde_json::Number`, carried through unread: no rule of this library looks
/// inside a number.
#[verifier::external_type_specification]
#[verifier::external_body]
pub struct ExNumber(serde_json::Number);

/// `serde_json::Value`, the tree that the outside functions take and give.
#[verifier::external_type_specification]
#[verifier::external_body]
pub struct ExTree(serde_json::Value);

/// `Clone::clone` of `serde_json::Number`: the copy is the same number.
pub assume_specification[ <serde_json::Number as Clone>::clone ](
    n: &serde_json::Number,
) -> (r: serde_json::Number)
    ensures
        r == *n,
;

/// What `serde_json::from_slice` makes of `bytes` when it is asked for a
/// `serde_json::Value`.
pub uninterp spec fn parsed_json(bytes: Seq<u8>) -> Result<JsonModel, ParseFailure>;

/// The text that `serde_yaml::to_string` gives for `doc`, if it gives one.
pub uninterp spec fn yaml_encoding(doc: JsonModel) -> Option<Seq<char>>;

/// The text that `quick_xml::se::to_string_with_root` gives for `doc` under the
/// root tag `root`, if it gives one.
pub uninterp spec fn xml_encoding(root: Seq<char>, doc: JsonModel) -> Option<Seq<char>>;

/// The text that `serde_json::to_string_pretty` gives for `doc`, if it gives
/// one.
pub uninterp spec fn json_encoding(doc: JsonModel) -> Option<Seq<char>>;

/// The model of what a parse returned.
pub open spec fn outcome_view(outcome: Result<JsonValue, ParseError>) -> Result<
    JsonModel,
    ParseFailure,
> {
    match outcome {
        Ok(doc) => Ok(doc@),
        Err(e) => Err(e@),
    }
}

/// The model of a text that may be missing.
pub open spec fn text_view(text: Option<String>) -> Option<Seq<char>> {
    match text {
        Some(t) => Some(t@),
        None => None,
    }
}

/// Rebuilds a tree of `serde_json` as a `JsonValue`, node by node: each variant of
/// `serde_json::Value` becomes the variant of the same kind, and the members of
/// an object keep the order in which `serde_json::Map` hands them out.
#[verifier::external_body]
fn value_from_serde(raw: serde_json::Value) -> JsonValue {
    match raw {
        serde_json::Value::Null => JsonValue::Null,
        serde_json::Value::Bool(b) => JsonValue::Boolean(b),
        serde_json::Value::Number(n) => JsonValue::Number(n),
        serde_json::Value::String(s) => JsonValue::String(s),
        serde_json::Value::Array(a) => JsonValue::Array(a.into_iter().map(value_from_serde).collect()),
        serde_json::Value::Object(m) => JsonValue::Object(
            m.into_iter().map(|(k, v)| (k, value_from_serde(v))).collect(),
        ),
    }
}

/// Rebuilds a `JsonValue` as a tree of `serde_json`, node by node. The members of
/// an object are inserted into a `serde_json::Map` in their order.
#[verifier::external_body]
fn value_to_serde(doc: &JsonValue) -> serde_json::Value {
    match doc {
        JsonValue::Null => serde_json::Value::Null,
        JsonValue::Boolean(b) => serde_json::Value::Bool(*b),
        JsonValue::Number(n) => serde_json::Value::Number(n.clone()),
        JsonValue::String(s) => serde_json::Value::String(s.clone()),
        JsonValue::Array(a) => serde_json::Value::Array(a.iter().map(value_to_serde).collect()),
        JsonValue::Object(m) => serde_json::Value::Object(
            m.iter().map(|(k, v)| (k.clone(), value_to_serde(v))).collect(),
        ),
    }
}

/// `serde_json::from_slice`, asked for a `serde_json::Value`. It accepts one
/// JSON value with white space around it and nothing else, and it is a function
/// of the bytes alone. Where a key occurs twice in an object of the text,
/// `serde_json::Map` keeps one member for it, so the keys of every object of
/// the result are unique. Of a `serde_json::Error` the result keeps the
/// category (`classify`; all but `Eof` count as syntax), the place (`line`,
/// `column`) and the sentence (`to_string`).
#[verifier::external_body]
pub(crate) fn json_from_slice(bytes: &[u8]) -> (r: Result<JsonValue, ParseError>)
    ensures
        outcome_view(r) == parsed_json(bytes@),
        r matches Ok(doc) ==> doc@.wf(),
{
    match serde_json::from_slice::<serde_json::Value>(bytes) {
        Ok(raw) => Ok(value_from_serde(raw)),
        Err(e) => Err(ParseError {
            kind: match e.classify() {
                serde_json::error::Category::Eof => ParseErrorKind::UnexpectedEof,
                serde_json::error::Category::Io => ParseErrorKind::Syntax,
                serde_json::error::Category::Syntax => ParseErrorKind::Syntax,
                serde_json::error::Category::Data => ParseErrorKind::Syntax,
            },
            position: Position { line: e.line(), column: e.column() },
            message: e.to_string(),
        }),
    }
}

/// `serde_yaml::to_string` on the tree of `doc`: a function of the document
/// alone; `None` where it returns an error.
#[verifier::external_body]
pub(crate) fn yaml_from_value(doc: &JsonValue) -> (r: Option<String>)
    ensures
        text_view(r) == yaml_encoding(doc@),
{
    serde_yaml::to_string(&value_to_serde(doc)).ok()
}

/// `quick_xml::se::to_string_with_root` on the tree of `doc`: a function of the
/// root tag and the document alone; `None` where it returns an error, as it
/// does for a key that is no XML name.
#[verifier::external_body]
pub(crate) fn xml_from_value(root: &str, doc: &JsonValue) -> (r: Option<String>)
    ensures
        text_view(r) == xml_encoding(root@, doc@),
{
    quick_xml::se::to_string_with_root(root, &value_to_serde(doc)).ok()
}

/// `serde_json::to_string_pretty` on the tree of `doc`: a function of the
/// document alone; `None` where it returns an error.
#[verifier::external_body]
pub(crate) fn json_from_value(doc: &JsonValue) -> (r: Option<String>)
    ensures
        text_view(r) == json_encoding(doc@),
{
    serde_json::to_string_pretty(&value_to_serde(doc)).ok()
}

} // verus!
