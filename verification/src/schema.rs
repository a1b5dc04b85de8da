//! The shallow schema check: a document fits a schema if both are objects and
//! the schema has every key of the document. What the schema binds to its
//! keys is not looked at, nor is anything below the top level.

use vstd::prelude::*;
use crate::error::ValidationError;
use crate::value::{
    find_member, keys_of, lemma_object_view, lemma_set_keys, members_view, JsonModel, JsonValue,
};

verus! {

/// True if `doc` fits `schema`: both are objects, and every key of `doc` is a
/// key of `schema`.
pub open spec fn conforms(doc: JsonModel, schema: JsonModel) -> bool {
    &&& doc is Object
    &&& schema is Object
    &&& forall|key: Seq<char>| doc.has_key(key) ==> schema.has_key(key)
}

/// Checks `json` against `schema`, by the keys of the top level alone.
pub fn validate_json_schema(json: &JsonValue, schema: &JsonValue) -> (r: Result<
    (),
    ValidationError,
>)
    ensures
        r is Ok <==> conforms(json@, schema@),
        r is Err ==> r == Err::<(), ValidationError>(ValidationError::StructuralMismatch),
{
    match (json, schema) {
        (JsonValue::Object(members), JsonValue::Object(allowed)) => {
            proof {
                lemma_object_view(*members);
                lemma_object_view(*allowed);
            }
            let ghost doc_keys = keys_of(members_view(*members));
            let mut i: usize = 0;
            while i < members.len()
                invariant
                    i <= members.len(),
                    json@ == JsonModel::Object(members_view(*members)),
                    schema@ == JsonModel::Object(members_view(*allowed)),
                    doc_keys == keys_of(members_view(*members)),
                    forall|j: int| 0 <= j < i ==> schema@.has_key(#[trigger] doc_keys[j]),
                decreases members.len() - i,
            {
                assert(doc_keys[i as int] == members[i as int].0@);
                if find_member(allowed, &members[i].0).is_none() {
                    assert(json@.has_key(doc_keys[i as int]));
                    return Err(ValidationError::StructuralMismatch);
                }
                i += 1;
            }
            Ok(())
        },
        _ => Err(ValidationError::StructuralMismatch),
    }
}

/// Every object fits itself.
pub proof fn lemma_conforms_to_itself(doc: JsonModel)
    requires
        doc is Object,
    ensures
        conforms(doc, doc),
{
}

/// A document that fits a schema fits every schema that the first schema fits.
pub proof fn lemma_conforms_chain(doc: JsonModel, schema: JsonModel, wider: JsonModel)
    requires
        conforms(doc, schema),
        conforms(schema, wider),
    ensures
        conforms(doc, wider),
{
}

/// Only the keys of the schema count: two schemas with the same keys accept the
/// same documents, whatever they bind to the keys.
pub proof fn lemma_schema_values_ignored(doc: JsonModel, schema: JsonModel, other: JsonModel)
    requires
        schema is Object,
        other is Object,
        forall|key: Seq<char>| schema.has_key(key) <==> other.has_key(key),
    ensures
        conforms(doc, schema) <==> conforms(doc, other),
{
}

/// Only the top level counts: two documents with the same keys fit the same
/// schemas, whatever they bind to the keys.
pub proof fn lemma_document_values_ignored(doc: JsonModel, other: JsonModel, schema: JsonModel)
    requires
        doc is Object,
        other is Object,
        forall|key: Seq<char>| doc.has_key(key) <==> other.has_key(key),
    ensures
        conforms(doc, schema) <==> conforms(other, schema),
{
}

/// After a key is set in a document, the document fits a schema exactly if it
/// fitted before and the schema has that key.
pub proof fn lemma_conforms_after_set(
    doc: JsonModel,
    schema: JsonModel,
    key: Seq<char>,
    value: JsonModel,
)
    requires
        doc is Object,
    ensures
        conforms(doc.with_member(key, value), schema) <==> conforms(doc, schema)
            && schema.has_key(key),
{
    let changed = doc.with_member(key, value);
    assert forall|k: Seq<char>| changed.has_key(k) <==> (k == key || doc.has_key(k)) by {
        lemma_set_keys(doc, key, value, k);
    }
    lemma_set_keys(doc, key, value, key);
}

} // verus!
