//! Conversion of a document to the text of another format, and to JSON text.
//!
//! The XML that comes out cannot be read back into the document it came from:
//! every member of an object becomes an element named by its key, the elements
//! of an array repeat the name of the member that holds the array, and the
//! whole stands in one root element. Arrays of one element, numbers and strings
//! are then no longer told apart.

use vstd::prelude::*;
use crate::backend::{
    json_encoding, json_from_value, text_view, xml_encoding, xml_from_value, yaml_encoding,
    yaml_from_value,
};
use crate::error::{ConversionError, ConversionFailure};
use crate::value::{JsonModel, JsonValue};

verus! {

/// The name of the element that holds an XML document.
pub const XML_ROOT: &'static str = "root";

/// The model of what a conversion returned.
pub open spec fn conversion_view(outcome: Result<String, ConversionError>) -> Result<
    Seq<char>,
    ConversionFailure,
> {
    match outcome {
        Ok(text) => Ok(text@),
        Err(e) => Err(e@),
    }
}

/// What a serializer's answer means for the caller: its text, or the failure
/// to serialize.
pub open spec fn encoded(text: Option<Seq<char>>) -> Result<Seq<char>, ConversionFailure> {
    match text {
        Some(t) => Ok(t),
        None => Err(ConversionFailure::SerializationFailed),
    }
}

/// The result of converting `doc` to `format`.
pub open spec fn converted(doc: JsonModel, format: Seq<char>) -> Result<
    Seq<char>,
    ConversionFailure,
> {
    if format == "yaml"@ {
        encoded(yaml_encoding(doc))
    } else if format == "xml"@ {
        encoded(xml_encoding(XML_ROOT@, doc))
    } else {
        Err(ConversionFailure::UnsupportedFormat(format))
    }
}

/// True if the two texts are the same.
fn same_text(a: &str, b: &str) -> (r: bool)
    ensures
        r == (a@ == b@),
{
    a.to_owned() == b.to_owned()
}

/// Turns a serializer's answer into the result of a conversion.
pub fn conversion_outcome(text: Option<String>) -> (r: Result<String, ConversionError>)
    ensures
        conversion_view(r) == encoded(text_view(text)),
{
    match text {
        Some(t) => Ok(t),
        None => Err(ConversionError::SerializationFailed),
    }
}

/// Converts `json` to the text of `format`, which is `"yaml"` or `"xml"`.
pub fn convert_to_format(json: &JsonValue, format: &str) -> (r: Result<String, ConversionError>)
    ensures
        conversion_view(r) == converted(json@, format@),
{
    if same_text(format, "yaml") {
        conversion_outcome(yaml_from_value(json))
    } else if same_text(format, "xml") {
        conversion_outcome(xml_from_value(XML_ROOT, json))
    } else {
        Err(ConversionError::UnsupportedFormat(format.to_owned()))
    }
}

/// The document as indented JSON text, its members in the order in which the
/// document holds them.
pub fn serialize_json(json: &JsonValue) -> (r: Result<String, ConversionError>)
    ensures
        conversion_view(r) == encoded(json_encoding(json@)),
{
    conversion_outcome(json_from_value(json))
}

} // verus!
