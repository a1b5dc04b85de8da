//! Parsing of a text that holds one JSON document.

use vstd::prelude::*;
use vstd::string::StringSliceAdditionalSpecFns;
use crate::backend::{json_from_slice, outcome_view, parsed_json};
use crate::error::ParseError;
use crate::value::JsonValue;

verus! {

/// Parses a text that holds one JSON document and nothing else but white
/// space.
pub fn parse_json(json_str: &str) -> (r: Result<JsonValue, ParseError>)
    ensures
        outcome_view(r) == parsed_json(json_str.spec_bytes()),
        r matches Ok(doc) ==> doc@.wf(),
{
    json_from_slice(json_str.as_bytes())
}

} // verus!
