//! A JSON document held as plain values, as the widget API exchanges them.

use vstd::prelude::*;

verus! {

/// A serde_json number: an integer or a finite float, as serde_json holds it.
#[verifier::external_type_specification]
#[verifier::external_body]
pub struct ExJsonNumber(serde_json::Number);

/// A value as serde_json reads and writes it.
#[verifier::external_type_specification]
#[verifier::external_body]
pub struct ExSerdeValue(serde_json::Value);

/// The error serde_json gives for a text that is no JSON.
#[verifier::external_type_specification]
#[verifier::external_body]
pub struct ExSerdeError(serde_json::Error);

/// A JSON value. An object keeps its members in order, each a key and a
/// value.
#[derive(Debug)]
pub enum JsonValue {
    Null,
    Bool(bool),
    Number(serde_json::Number),
    Text(String),
    Array(Vec<JsonValue>),
    Object(Vec<(String, JsonValue)>),
}

/// No two members of `entries` share a key.
pub open spec fn keys_unique(entries: Seq<(String, JsonValue)>) -> bool {
    forall|i: int, j: int|
        0 <= i < j < entries.len() ==> #[trigger] entries[i].0@ != #[trigger] entries[j].0@
}

/// A JSON value as a JSON text can hold it: no object, at any depth, has a
/// key twice. (Numbers are serde_json's own, valid by construction.)
pub open spec fn json_wf(v: JsonValue) -> bool
    decreases v,
{
    match v {
        JsonValue::Array(items) => forall|i: int|
            0 <= i < items@.len() ==> json_wf(#[trigger] items@[i]),
        JsonValue::Object(entries) => {
            &&& keys_unique(entries@)
            &&& forall|i: int| 0 <= i < entries@.len() ==> json_wf(#[trigger] entries@[i].1)
        },
        _ => true,
    }
}

/// What `serde_json::from_str::<serde_json::Value>` reads from `text`, taken
/// variant by variant as a `JsonValue`; `None` where it reports an error.
pub uninterp spec fn parsed_json(text: Seq<char>) -> Option<JsonValue>;

/// The compact JSON text that serde_json writes for `v` taken as a
/// `serde_json::Value`.
pub uninterp spec fn json_text(v: JsonValue) -> Seq<char>;

/// A serde_json value as a `JsonValue`: variant by variant, each field moved,
/// the members of an object in the order serde_json's map yields them.
#[verifier::external_body]
fn from_serde(value: serde_json::Value) -> JsonValue {
    match value {
        serde_json::Value::Null => JsonValue::Null,
        serde_json::Value::Bool(b) => JsonValue::Bool(b),
        serde_json::Value::Number(n) => JsonValue::Number(n),
        serde_json::Value::String(s) => JsonValue::Text(s),
        serde_json::Value::Array(items) => JsonValue::Array(items.into_iter().map(from_serde).collect()),
        serde_json::Value::Object(map) => JsonValue::Object(map.into_iter().map(|(k, v)| (k, from_serde(v))).collect()),
    }
}

/// A `JsonValue` as a serde_json value: variant by variant, each field moved,
/// the members of an object collected into serde_json's map.
#[verifier::external_body]
fn to_serde(value: JsonValue) -> serde_json::Value {
    match value {
        JsonValue::Null => serde_json::Value::Null,
        JsonValue::Bool(b) => serde_json::Value::Bool(b),
        JsonValue::Number(n) => serde_json::Value::Number(n),
        JsonValue::Text(s) => serde_json::Value::String(s),
        JsonValue::Array(items) => serde_json::Value::Array(items.into_iter().map(to_serde).collect()),
        JsonValue::Object(entries) => serde_json::Value::Object(entries.into_iter().map(|(k, v)| (k, to_serde(v))).collect()),
    }
}

/// `serde_json::from_str::<serde_json::Value>`, its value taken as a
/// `JsonValue`. The result is named (`parsed_json`): it depends on the text
/// alone. The contract claims one fact more, which serde_json's source shows:
/// what it reads is well formed, since each object is a `serde_json::Map`,
/// which holds a key at most once.
#[verifier::external_body]
pub(crate) fn parse_json(text: &str) -> (r: Result<JsonValue, serde_json::Error>)
    ensures
        r is Ok <==> parsed_json(text@) is Some,
        r matches Ok(v) ==> parsed_json(text@) == Some(v) && json_wf(v),
{
    serde_json::from_str::<serde_json::Value>(text).map(from_serde)
}

/// `Display` of `serde_json::Value`, the compact JSON text, for `v` taken as a
/// serde_json value; the text is named (`json_text`): it depends on `v` alone.
/// Writing a serde_json value cannot fail.
#[verifier::external_body]
pub(crate) fn write_json(v: JsonValue) -> (text: String)
    ensures
        text@ == json_text(v),
{
    to_serde(v).to_string()
}

/// `i` is the first position of `entries` whose key reads `key`.
pub open spec fn is_first_key_index(entries: Seq<(String, JsonValue)>, key: Seq<char>, i: int) -> bool {
    &&& 0 <= i < entries.len()
    &&& entries[i].0@ == key
    &&& forall|j: int| 0 <= j < i ==> #[trigger] entries[j].0@ != key
}

/// Some member of `entries` has the key `key`.
pub open spec fn has_key(entries: Seq<(String, JsonValue)>, key: Seq<char>) -> bool {
    exists|i: int| 0 <= i < entries.len() && #[trigger] entries[i].0@ == key
}

/// The value that a reader of the object finds under `key`: that of the first
/// member with this key.
pub open spec fn member(entries: Seq<(String, JsonValue)>, key: Seq<char>) -> Option<JsonValue> {
    if has_key(entries, key) {
        let i = choose|i: int| is_first_key_index(entries, key, i);
        Some(entries[i].1)
    } else {
        None
    }
}

/// The member `key` of a JSON value, where the value is an object.
pub open spec fn json_get(v: JsonValue, key: Seq<char>) -> Option<JsonValue> {
    match v {
        JsonValue::Object(entries) => member(entries@, key),
        _ => None,
    }
}

/// Where a key occurs, it occurs a first time.
pub proof fn lemma_first_key_index_exists(entries: Seq<(String, JsonValue)>, key: Seq<char>)
    requires
        has_key(entries, key),
    ensures
        exists|i: int| is_first_key_index(entries, key, i),
    decreases entries.len(),
{
    let k = choose|k: int| 0 <= k < entries.len() && #[trigger] entries[k].0@ == key;
    if exists|j: int| 0 <= j < k && #[trigger] entries[j].0@ == key {
        let j = choose|j: int| 0 <= j < k && #[trigger] entries[j].0@ == key;
        let prefix = entries.subrange(0, k);
        assert(prefix[j].0@ == key);
        lemma_first_key_index_exists(prefix, key);
        let i = choose|i: int| is_first_key_index(prefix, key, i);
        assert(is_first_key_index(entries, key, i)) by {
            assert forall|m: int| 0 <= m < i implies #[trigger] entries[m].0@ != key by {
                assert(prefix[m] == entries[m]);
            }
        }
    } else {
        assert(is_first_key_index(entries, key, k));
    }
}

/// The first position of a key is unique.
pub proof fn lemma_first_key_index_unique(entries: Seq<(String, JsonValue)>, key: Seq<char>, i: int, j: int)
    requires
        is_first_key_index(entries, key, i),
        is_first_key_index(entries, key, j),
    ensures
        i == j,
{
    if i < j {
        assert(entries[i].0@ != key);
    } else if j < i {
        assert(entries[j].0@ != key);
    }
}

} // verus!
