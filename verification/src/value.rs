//! The JSON value tree and its mathematical model.

use vstd::prelude::*;

verus! {

/// What a JSON document is: a finite tree over six kinds of node. The members
/// of an object are held in the order in which they were inserted.
pub enum JsonModel {
    Null,
    Boolean(bool),
    Number(serde_json::Number),
    String(Seq<char>),
    Array(Seq<JsonModel>),
    Object(Seq<(Seq<char>, JsonModel)>),
}

/// The keys of the members of an object, in the members' order.
pub open spec fn keys_of(entries: Seq<(Seq<char>, JsonModel)>) -> Seq<Seq<char>> {
    entries.map_values(|entry: (Seq<char>, JsonModel)| entry.0)
}

impl JsonModel {
    /// The data invariant: within every object of the tree, keys are unique.
    pub open spec fn wf(self) -> bool
        decreases self,
    {
        match self {
            JsonModel::Array(items) => forall|i: int|
                0 <= i < items.len() ==> (#[trigger] items[i]).wf(),
            JsonModel::Object(entries) => keys_of(entries).no_duplicates() && forall|i: int|
                0 <= i < entries.len() ==> (#[trigger] entries[i]).1.wf(),
            _ => true,
        }
    }

    /// The keys of an object in the order of its members; of any other value,
    /// none.
    pub open spec fn keys(self) -> Seq<Seq<char>> {
        match self {
            JsonModel::Object(entries) => keys_of(entries),
            _ => Seq::empty(),
        }
    }

    /// True if the value is an object with a member under `key`.
    pub open spec fn has_key(self, key: Seq<char>) -> bool {
        self.keys().contains(key)
    }

    /// The value bound to `key`: that of the first member under that key, if
    /// the value is an object and has one.
    pub open spec fn member(self, key: Seq<char>) -> Option<JsonModel> {
        match self {
            JsonModel::Object(entries) => match keys_of(entries).index_of_first(key) {
                Some(i) => Some(entries[i].1),
                None => None,
            },
            _ => None,
        }
    }

    /// The object with `value` bound to `key`: in the place of the member that
    /// had the key, or behind all members if none had it. Any other value is
    /// left as it is.
    pub open spec fn with_member(self, key: Seq<char>, value: JsonModel) -> JsonModel {
        match self {
            JsonModel::Object(entries) => match keys_of(entries).index_of_first(key) {
                Some(i) => JsonModel::Object(entries.update(i, (key, value))),
                None => JsonModel::Object(entries.push((key, value))),
            },
            _ => self,
        }
    }
}

/// A JSON document. Every nested value is owned by its parent, so a tree is
/// finite and acyclic by construction.
#[derive(Debug, PartialEq)]
pub enum JsonValue {
    Null,
    Boolean(bool),
    Number(serde_json::Number),
    String(String),
    Array(Vec<JsonValue>),
    Object(Vec<(String, JsonValue)>),
}

impl View for JsonValue {
    type V = JsonModel;

    open spec fn view(&self) -> JsonModel
        decreases self,
    {
        match self {
            JsonValue::Null => JsonModel::Null,
            JsonValue::Boolean(b) => JsonModel::Boolean(*b),
            JsonValue::Number(n) => JsonModel::Number(*n),
            JsonValue::String(s) => JsonModel::String(s@),
            JsonValue::Array(items) => JsonModel::Array(
                Seq::new(
                    items.len() as nat,
                    |i: int|
                        if 0 <= i < items.len() {
                            items[i]@
                        } else {
                            JsonModel::Null
                        },
                ),
            ),
            JsonValue::Object(entries) => {
                let values = Seq::new(
                    entries.len() as nat,
                    |i: int|
                        if 0 <= i < entries.len() {
                            entries[i].1@
                        } else {
                            JsonModel::Null
                        },
                );
                JsonModel::Object(
                    Seq::new(entries.len() as nat, |i: int| (entries[i].0@, values[i])),
                )
            },
        }
    }
}

/// The members of an object as the model holds them.
pub open spec fn members_view(entries: Vec<(String, JsonValue)>) -> Seq<(Seq<char>, JsonModel)> {
    Seq::new(entries.len() as nat, |i: int| (entries[i].0@, entries[i].1@))
}

/// The model of an object is made of the models of its members.
pub proof fn lemma_object_view(entries: Vec<(String, JsonValue)>)
    ensures
        JsonValue::Object(entries)@ == JsonModel::Object(members_view(entries)),
{
    assert(JsonValue::Object(entries)@->Object_0 =~= members_view(entries));
}

/// The place of the first member of `entries` under `key`, if there is one.
pub fn find_member(entries: &Vec<(String, JsonValue)>, key: &String) -> (r: Option<usize>)
    ensures
        match r {
            Some(i) => i < entries.len() && entries[i as int].0@ == key@ && keys_of(
                members_view(*entries),
            ).contains(key@) && keys_of(members_view(*entries)).index_of_first(key@) == Some(
                i as int,
            ),
            None => !keys_of(members_view(*entries)).contains(key@) && keys_of(
                members_view(*entries),
            ).index_of_first(key@).is_none(),
        },
{
    let ghost keys = keys_of(members_view(*entries));
    let mut i: usize = 0;
    while i < entries.len()
        invariant
            i <= entries.len(),
            keys == keys_of(members_view(*entries)),
            keys.len() == entries.len(),
            forall|j: int| 0 <= j < i ==> #[trigger] keys[j] != key@,
        decreases entries.len() - i,
    {
        assert(keys[i as int] == entries[i as int].0@);
        if entries[i].0 == *key {
            proof {
                assert(keys.contains(key@));
                keys.index_of_first_ensures(key@);
            }
            return Some(i);
        }
        i += 1;
    }
    proof {
        keys.index_of_first_ensures(key@);
    }
    None
}

impl JsonValue {
    /// True if the value is an object.
    pub fn is_object(&self) -> (r: bool)
        ensures
            r == (self@ is Object),
    {
        match self {
            JsonValue::Object(_) => true,
            _ => false,
        }
    }
}

impl JsonValue {
    /// True if the document keeps the data invariant: no object of the tree
    /// binds a key twice.
    pub fn is_well_formed(&self) -> (r: bool)
        ensures
            r == self@.wf(),
        decreases self, 1int,
    {
        match self {
            JsonValue::Array(items) => {
                let r = items_well_formed(items);
                proof {
                    let models = self@->Array_0;
                    assert(models.len() == items.len());
                    if r {
                        assert forall|i: int| 0 <= i < models.len() implies (#[trigger] models[i]).wf() by {
                            assert(models[i] == items[i]@);
                        }
                    } else {
                        let i = choose|i: int| 0 <= i < items.len() && !(#[trigger] items[i])@.wf();
                        assert(models[i] == items[i]@);
                    }
                }
                r
            },
            JsonValue::Object(entries) => {
                proof {
                    lemma_object_view(*entries);
                }
                let r = keys_distinct(entries) && members_well_formed(entries);
                proof {
                    let models = members_view(*entries);
                    if r {
                        assert forall|i: int| 0 <= i < models.len() implies (#[trigger] models[i]).1.wf() by {
                            assert(models[i].1 == entries[i].1@);
                        }
                    } else if keys_of(models).no_duplicates() {
                        let i = choose|i: int|
                            0 <= i < entries.len() && !(#[trigger] entries[i]).1@.wf();
                        assert(models[i].1 == entries[i].1@);
                    }
                }
                r
            },
            _ => true,
        }
    }
}

/// True if every element of an array is well-formed.
fn items_well_formed(items: &Vec<JsonValue>) -> (r: bool)
    ensures
        r == forall|i: int| 0 <= i < items.len() ==> (#[trigger] items[i])@.wf(),
    decreases items, 0int,
{
    let mut i: usize = 0;
    while i < items.len()
        invariant
            i <= items.len(),
            forall|j: int| 0 <= j < i ==> (#[trigger] items[j])@.wf(),
        decreases items.len() - i,
    {
        if !items[i].is_well_formed() {
            return false;
        }
        i += 1;
    }
    true
}

/// True if the value of every member of an object is well-formed.
fn members_well_formed(entries: &Vec<(String, JsonValue)>) -> (r: bool)
    ensures
        r == forall|i: int| 0 <= i < entries.len() ==> (#[trigger] entries[i]).1@.wf(),
    decreases entries, 0int,
{
    let mut i: usize = 0;
    while i < entries.len()
        invariant
            i <= entries.len(),
            forall|j: int| 0 <= j < i ==> (#[trigger] entries[j]).1@.wf(),
        decreases entries.len() - i,
    {
        if !entries[i].1.is_well_formed() {
            return false;
        }
        i += 1;
    }
    true
}

/// True if no two members of an object have the same key.
fn keys_distinct(entries: &Vec<(String, JsonValue)>) -> (r: bool)
    ensures
        r == keys_of(members_view(*entries)).no_duplicates(),
{
    let ghost keys = keys_of(members_view(*entries));
    let mut i: usize = 0;
    while i < entries.len()
        invariant
            i <= entries.len(),
            keys == keys_of(members_view(*entries)),
            keys.len() == entries.len(),
            forall|a: int, b: int| 0 <= a < b < i ==> keys[a] != keys[b],
        decreases entries.len() - i,
    {
        let mut j: usize = 0;
        while j < i
            invariant
                j <= i < entries.len(),
                keys == keys_of(members_view(*entries)),
                keys.len() == entries.len(),
                forall|a: int| 0 <= a < j ==> keys[a] != keys[i as int],
            decreases i - j,
        {
            assert(keys[j as int] == entries[j as int].0@);
            assert(keys[i as int] == entries[i as int].0@);
            if entries[j].0 == entries[i].0 {
                return false;
            }
            j += 1;
        }
        i += 1;
    }
    true
}

impl Clone for JsonValue {
    fn clone(&self) -> (r: JsonValue)
        ensures
            r@ == self@,
    {
        self.deep_copy()
    }
}

impl JsonValue {
    /// A copy of the whole tree.
    pub fn deep_copy(&self) -> (r: JsonValue)
        ensures
            r@ == self@,
        decreases self, 1int,
    {
        match self {
            JsonValue::Null => JsonValue::Null,
            JsonValue::Boolean(b) => JsonValue::Boolean(*b),
            JsonValue::Number(n) => JsonValue::Number(n.clone()),
            JsonValue::String(s) => JsonValue::String(s.clone()),
            JsonValue::Array(items) => {
                let r = JsonValue::Array(copy_items(items));
                assert(r@->Array_0 =~= self@->Array_0);
                r
            },
            JsonValue::Object(entries) => {
                let r = JsonValue::Object(copy_entries(entries));
                assert(r@->Object_0 =~= self@->Object_0);
                r
            },
        }
    }
}

/// Copies the elements of an array, each with its whole subtree.
fn copy_items(items: &Vec<JsonValue>) -> (r: Vec<JsonValue>)
    ensures
        r.len() == items.len(),
        forall|j: int| 0 <= j < items.len() ==> (#[trigger] r[j])@ == items[j]@,
    decreases items, 0int,
{
    let mut copy: Vec<JsonValue> = Vec::new();
    let mut i: usize = 0;
    while i < items.len()
        invariant
            i <= items.len(),
            copy.len() == i,
            forall|j: int| 0 <= j < i ==> (#[trigger] copy[j])@ == items[j]@,
        decreases items.len() - i,
    {
        copy.push(items[i].deep_copy());
        i += 1;
    }
    copy
}

/// Copies the members of an object, each key with its whole subtree.
fn copy_entries(entries: &Vec<(String, JsonValue)>) -> (r: Vec<(String, JsonValue)>)
    ensures
        r.len() == entries.len(),
        forall|j: int|
            0 <= j < entries.len() ==> (#[trigger] r[j]).0@ == entries[j].0@ && r[j].1@
                == entries[j].1@,
    decreases entries, 0int,
{
    let mut copy: Vec<(String, JsonValue)> = Vec::new();
    let mut i: usize = 0;
    while i < entries.len()
        invariant
            i <= entries.len(),
            copy.len() == i,
            forall|j: int|
                0 <= j < i ==> (#[trigger] copy[j]).0@ == entries[j].0@ && copy[j].1@
                    == entries[j].1@,
        decreases entries.len() - i,
    {
        copy.push((entries[i].0.clone(), entries[i].1.deep_copy()));
        i += 1;
    }
    copy
}

/// A key that stands at `i` and nowhere before `i` is first found at `i`.
pub proof fn lemma_first_index(keys: Seq<Seq<char>>, key: Seq<char>, i: int)
    requires
        0 <= i < keys.len(),
        keys[i] == key,
        forall|j: int| 0 <= j < i ==> keys[j] != key,
    ensures
        keys.index_of_first(key) == Some(i),
{
    keys.index_of_first_ensures(key);
    assert(keys.contains(key));
}

/// A key that stands nowhere is not found.
pub proof fn lemma_no_index(keys: Seq<Seq<char>>, key: Seq<char>)
    requires
        !keys.contains(key),
    ensures
        keys.index_of_first(key).is_none(),
{
    keys.index_of_first_ensures(key);
}

/// A lookup finds a value exactly for the keys that the document has.
pub proof fn lemma_member_iff_has_key(doc: JsonModel, key: Seq<char>)
    ensures
        doc.member(key) is Some <==> doc.has_key(key),
{
    doc.keys().index_of_first_ensures(key);
}

/// A lookup in a well-formed object finds the value of the one member that
/// has the key.
pub proof fn lemma_member_of_entry(doc: JsonModel, i: int)
    requires
        doc is Object,
        0 <= i < doc->Object_0.len(),
        keys_of(doc->Object_0).no_duplicates(),
    ensures
        doc.member(doc->Object_0[i].0) == Some(doc->Object_0[i].1),
{
    let keys = keys_of(doc->Object_0);
    keys.index_of_first_ensures(keys[i]);
    assert(keys.contains(keys[i]));
}

/// After a key is set in an object, a lookup of that key finds the new value.
pub proof fn lemma_set_then_get(doc: JsonModel, key: Seq<char>, value: JsonModel)
    requires
        doc is Object,
    ensures
        doc.with_member(key, value).member(key) == Some(value),
{
    let entries = doc->Object_0;
    let keys = keys_of(entries);
    keys.index_of_first_ensures(key);
    match keys.index_of_first(key) {
        Some(i) => {
            assert(keys_of(entries.update(i, (key, value))) =~= keys);
        },
        None => {
            let grown = keys_of(entries.push((key, value)));
            assert(grown =~= keys.push(key));
            lemma_first_index(grown, key, keys.len() as int);
        },
    }
}

/// Setting a key changes what no other key is bound to.
pub proof fn lemma_set_keeps_others(
    doc: JsonModel,
    key: Seq<char>,
    value: JsonModel,
    other: Seq<char>,
)
    requires
        other != key,
    ensures
        doc.with_member(key, value).member(other) == doc.member(other),
{
    if doc is Object {
        let entries = doc->Object_0;
        let keys = keys_of(entries);
        keys.index_of_first_ensures(key);
        keys.index_of_first_ensures(other);
        match keys.index_of_first(key) {
            Some(i) => {
                assert(keys_of(entries.update(i, (key, value))) =~= keys);
            },
            None => {
                let grown = keys_of(entries.push((key, value)));
                assert(grown =~= keys.push(key));
                match keys.index_of_first(other) {
                    Some(j) => {
                        lemma_first_index(grown, other, j);
                    },
                    None => {
                        assert forall|j: int| 0 <= j < grown.len() implies grown[j] != other by {
                            if j < keys.len() {
                                assert(keys[j] == grown[j]);
                            }
                        }
                        lemma_no_index(grown, other);
                    },
                }
            },
        }
    }
}

/// After a key is set in an object, the object has that key and the keys that
/// it had, and no others.
pub proof fn lemma_set_keys(doc: JsonModel, key: Seq<char>, value: JsonModel, other: Seq<char>)
    requires
        doc is Object,
    ensures
        doc.with_member(key, value) is Object,
        doc.with_member(key, value).has_key(other) <==> (other == key || doc.has_key(other)),
{
    lemma_member_iff_has_key(doc, other);
    lemma_member_iff_has_key(doc.with_member(key, value), other);
    if other == key {
        lemma_set_then_get(doc, key, value);
    } else {
        lemma_set_keeps_others(doc, key, value, other);
    }
}

/// Setting a key keeps the members in their places: one that had the key keeps
/// its place, and a new one goes last.
pub proof fn lemma_set_keeps_order(doc: JsonModel, key: Seq<char>, value: JsonModel)
    requires
        doc is Object,
    ensures
        doc.has_key(key) ==> doc.with_member(key, value).keys() == doc.keys(),
        !doc.has_key(key) ==> doc.with_member(key, value).keys() == doc.keys().push(key),
{
    let entries = doc->Object_0;
    let keys = keys_of(entries);
    keys.index_of_first_ensures(key);
    match keys.index_of_first(key) {
        Some(i) => {
            assert(keys_of(entries.update(i, (key, value))) =~= keys);
        },
        None => {
            assert(keys_of(entries.push((key, value))) =~= keys.push(key));
        },
    }
}

/// Setting a key to a well-formed value keeps a document well-formed.
pub proof fn lemma_set_keeps_wf(doc: JsonModel, key: Seq<char>, value: JsonModel)
    requires
        doc.wf(),
        value.wf(),
    ensures
        doc.with_member(key, value).wf(),
{
    if doc is Object {
        let entries = doc->Object_0;
        let keys = keys_of(entries);
        keys.index_of_first_ensures(key);
        match keys.index_of_first(key) {
            Some(i) => {
                let entries2 = entries.update(i, (key, value));
                assert(keys_of(entries2) =~= keys);
                assert forall|j: int| 0 <= j < entries2.len() implies (#[trigger] entries2[j]).1.wf() by {
                    if j != i {
                        assert(entries2[j] == entries[j]);
                    }
                }
            },
            None => {
                let entries2 = entries.push((key, value));
                let grown = keys_of(entries2);
                assert(grown =~= keys.push(key));
                assert forall|a: int, b: int|
                    0 <= a < grown.len() && 0 <= b < grown.len() && a != b implies grown[a]
                    != grown[b] by {
                    if a < keys.len() {
                        assert(grown[a] == keys[a]);
                    }
                    if b < keys.len() {
                        assert(grown[b] == keys[b]);
                    }
                }
                assert forall|j: int| 0 <= j < entries2.len() implies (#[trigger] entries2[j]).1.wf() by {
                    if j < entries.len() {
                        assert(entries2[j] == entries[j]);
                    }
                }
            },
        }
    }
}

/// Setting a key twice is setting it to the second value: the first is
/// replaced whole.
pub proof fn lemma_set_twice(doc: JsonModel, key: Seq<char>, first: JsonModel, second: JsonModel)
    ensures
        doc.with_member(key, first).with_member(key, second) == doc.with_member(key, second),
{
    if doc is Object {
        let entries = doc->Object_0;
        let keys = keys_of(entries);
        keys.index_of_first_ensures(key);
        match keys.index_of_first(key) {
            Some(i) => {
                let entries1 = entries.update(i, (key, first));
                assert(keys_of(entries1) =~= keys);
                assert(entries1.update(i, (key, second)) =~= entries.update(i, (key, second)));
            },
            None => {
                let entries1 = entries.push((key, first));
                let grown = keys_of(entries1);
                assert(grown =~= keys.push(key));
                lemma_first_index(grown, key, keys.len() as int);
                assert(entries1.update(keys.len() as int, (key, second)) =~= entries.push(
                    (key, second),
                ));
            },
        }
    }
}

} // verus!
