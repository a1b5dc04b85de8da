//! Replacement or insertion of one member of an object.

use vstd::prelude::*;
use crate::error::EditError;
use crate::value::{find_member, lemma_object_view, members_view, JsonValue};

verus! {

/// Binds `new_value` to `key` at the top level of `json`. A member that had
/// the key keeps its place and loses its old value whole; a new key goes
/// behind the others. A document that is no object is left as it was.
pub fn edit_json(json: &mut JsonValue, key: &str, new_value: JsonValue) -> (r: Result<
    (),
    EditError,
>)
    ensures
        old(json)@ is Object ==> r is Ok && final(json)@ == old(json)@.with_member(
            key@,
            new_value@,
        ),
        !(old(json)@ is Object) ==> r == Err::<(), EditError>(EditError::NotAnObject)
            && *final(json) == *old(json),
{
    let name = key.to_owned();
    match json {
        JsonValue::Object(members) => {
            proof {
                lemma_object_view(*members);
            }
            let ghost before = members_view(*members);
            match find_member(members, &name) {
                Some(i) => {
                    members[i].1 = new_value;
                    proof {
                        lemma_object_view(*members);
                        assert(members_view(*members) =~= before.update(
                            i as int,
                            (key@, new_value@),
                        ));
                    }
                },
                None => {
                    members.push((name, new_value));
                    proof {
                        lemma_object_view(*members);
                        assert(members_view(*members) =~= before.push((key@, new_value@)));
                    }
                },
            }
            Ok(())
        },
        _ => Err(EditError::NotAnObject),
    }
}

} // verus!
