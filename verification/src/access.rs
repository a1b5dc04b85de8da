//! Lookup of one member of an object by its key.

use vstd::prelude::*;
use crate::value::{find_member, lemma_object_view, JsonModel, JsonValue};

verus! {

/// The model of a value that may be missing.
pub open spec fn found_view(found: Option<JsonValue>) -> Option<JsonModel> {
    match found {
        Some(value) => Some(value@),
        None => None,
    }
}

/// A copy of what `json` binds to `key` at its top level: `None` if `json` is
/// no object or has no such key. Nothing below the top level is searched.
pub fn parse_partial_json(json: &JsonValue, key: &str) -> (r: Option<JsonValue>)
    ensures
        found_view(r) == json@.member(key@),
{
    match json {
        JsonValue::Object(members) => {
            proof {
                lemma_object_view(*members);
            }
            let name = key.to_owned();
            match find_member(members, &name) {
                Some(i) => Some(members[i].1.deep_copy()),
                None => None,
            }
        },
        _ => None,
    }
}

} // verus!
