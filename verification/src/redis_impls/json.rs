//! JSON values, as far as Redis values are normalized into them.
use std::collections::HashMap;
use vstd::prelude::*;
use vstd::string::*;

use crate::error::debug_text;

verus! {

/// Declares [`serde_json::Value`], which is read through [`json_tree`] alone.
#[verifier::external_type_specification]
#[verifier::external_body]
pub struct ExJsonValue(serde_json::Value);

/// Declares [`serde_json::Map`], which is read through [`json_fields`] alone.
#[verifier::external_type_specification]
#[verifier::external_body]
#[verifier::reject_recursive_types(K)]
#[verifier::reject_recursive_types(V)]
pub struct ExJsonMap<K, V>(serde_json::Map<K, V>);

/// Declares [`serde_json::Error`], the error of writing or reading JSON.
#[verifier::external_type_specification]
#[verifier::external_body]
pub struct ExJsonError(serde_json::Error);

/// The contents of a JSON value.
pub enum JsonTree {
    /// A string.
    Text(Seq<char>),
    /// An array.
    List(Seq<JsonTree>),
    /// An object.
    Object(Map<Seq<char>, JsonTree>),
    /// `null`, a boolean or a number, by the way it is written.
    Bare(Seq<char>),
}

/// The contents of a [`serde_json::Value`].
pub uninterp spec fn json_tree(value: serde_json::Value) -> JsonTree;

/// The contents of a [`serde_json::Map`] from strings to JSON values.
pub uninterp spec fn json_fields(
    map: serde_json::Map<String, serde_json::Value>,
) -> Map<Seq<char>, JsonTree>;

/// The contents of a sequence of JSON values.
pub open spec fn json_trees(values: Seq<serde_json::Value>) -> Seq<JsonTree> {
    values.map_values(|value: serde_json::Value| json_tree(value))
}

/// The contents of an object without fields.
pub open spec fn no_fields() -> Map<Seq<char>, JsonTree> {
    Map::empty()
}

/// An object whose fields are all strings.
pub open spec fn flat_object(texts: Map<Seq<char>, Seq<char>>) -> JsonTree {
    JsonTree::Object(texts.map_values(|text: Seq<char>| JsonTree::Text(text)))
}

/// Makes a JSON string. Trusts the variant [`serde_json::Value::String`] to hold its text.
#[verifier::external_body]
pub(crate) fn json_text_value(text: String) -> (value: serde_json::Value)
    ensures
        json_tree(value) == JsonTree::Text(text@),
{
    serde_json::Value::String(text)
}

/// Makes a JSON array. Trusts the variant [`serde_json::Value::Array`] to hold its values in order.
#[verifier::external_body]
pub(crate) fn json_list_value(values: Vec<serde_json::Value>) -> (value: serde_json::Value)
    ensures
        json_tree(value) == JsonTree::List(json_trees(values@)),
{
    serde_json::Value::Array(values)
}

/// Makes a JSON object. Trusts the variant [`serde_json::Value::Object`] to hold its fields.
#[verifier::external_body]
pub(crate) fn json_object_value(
    fields: serde_json::Map<String, serde_json::Value>,
) -> (value: serde_json::Value)
    ensures
        json_tree(value) == JsonTree::Object(json_fields(fields)),
{
    serde_json::Value::Object(fields)
}

/// Makes an object without fields. Trusts [`serde_json::Map::new`] to make an empty map.
#[verifier::external_body]
pub(crate) fn no_json_fields() -> (fields: serde_json::Map<String, serde_json::Value>)
    ensures
        json_fields(fields) == no_fields(),
{
    serde_json::Map::new()
}

/// Gives a field a value. Trusts [`serde_json::Map::insert`] to put the value in place of one that
/// the field already has, and to leave the other fields alone.
#[verifier::external_body]
pub(crate) fn insert_json_field(
    fields: &mut serde_json::Map<String, serde_json::Value>,
    name: String,
    value: serde_json::Value,
)
    ensures
        json_fields(*final(fields)) == json_fields(*old(fields)).insert(name@, json_tree(value)),
{
    fields.insert(name, value);
}

/// The bytes that JSON contents are written as, in the compact form of [`serde_json::to_vec`].
pub uninterp spec fn json_written(tree: JsonTree) -> Seq<u8>;

/// The fields that JSON bytes hold, where they are an object whose fields are all strings; nothing
/// where they are anything else. It is what [`serde_json::from_slice`] reads.
pub uninterp spec fn json_string_map(bytes: Seq<u8>) -> Option<Map<Seq<char>, Seq<char>>>;

/// What a map between strings holds.
pub open spec fn text_map(map: Map<String, String>) -> Map<Seq<char>, Seq<char>> {
    Map::new(
        |name: Seq<char>| exists|key: String| #[trigger] map.contains_key(key) && key@ == name,
        |name: Seq<char>|
            map[choose|key: String| #[trigger] map.contains_key(key) && key@ == name]@,
    )
}

/// Writes a JSON value.
///
/// Trusts [`serde_json::to_vec`]: a JSON value is always written, the bytes depend on its contents
/// alone, and an object whose fields are all strings reads back as those fields.
#[verifier::external_body]
fn write_json(value: &serde_json::Value) -> (written: Result<Vec<u8>, serde_json::Error>)
    ensures
        written is Ok,
        written matches Ok(bytes) ==> bytes@ == json_written(json_tree(*value)),
        written matches Ok(bytes) ==> forall|texts: Map<Seq<char>, Seq<char>>|
            json_tree(*value) == #[trigger] flat_object(texts) ==> json_string_map(bytes@) == Some(
                texts,
            ),
{
    serde_json::to_vec(value)
}

/// Writes a map between strings as a JSON object.
///
/// Trusts [`serde_json::to_vec`]: a map between strings is always written, and reads back as the
/// same fields. Nothing is said of the order of the fields in the bytes, which differs from run to
/// run.
#[verifier::external_body]
pub(crate) fn write_json_map(
    map: &HashMap<String, String>,
) -> (written: Result<Vec<u8>, serde_json::Error>)
    ensures
        written is Ok,
        written matches Ok(bytes) ==> json_string_map(bytes@) == Some(text_map(map@)),
{
    serde_json::to_vec(map)
}

/// Reads a JSON object whose fields are all strings.
///
/// Trusts [`serde_json::from_slice`]: what it reads depends on the bytes alone.
#[verifier::external_body]
pub(crate) fn read_json_map(
    bytes: &[u8],
) -> (read: Result<HashMap<String, String>, serde_json::Error>)
    ensures
        match read {
            Ok(map) => json_string_map(bytes@) == Some(text_map(map@)),
            Err(_) => json_string_map(bytes@) is None,
        },
{
    serde_json::from_slice::<HashMap<String, String>>(bytes)
}

/// Makes the error of a Redis value that cannot be read. Trusts the conversion of
/// [`redis::ParsingError`] from a string, of which nothing is claimed.
#[verifier::external_body]
fn parsing_error(description: String) -> (err: redis::ParsingError)
{
    redis::ParsingError::from(description)
}

/// Whether bytes are what JSON contents are written as.
pub open spec fn writes(tree: JsonTree, bytes: Seq<u8>) -> bool {
    &&& bytes == json_written(tree)
    &&& forall|texts: Map<Seq<char>, Seq<char>>|
        tree == #[trigger] flat_object(texts) ==> json_string_map(bytes) == Some(texts)
}

/// Serializes a normalized JSON value into UTF-8 JSON bytes.
pub fn json_value_to_bytes(
    value: &serde_json::Value,
) -> (written: Result<Vec<u8>, redis::ParsingError>)
    ensures
        written matches Ok(bytes) && writes(json_tree(*value), bytes@),
{
    match write_json(value) {
        Ok(bytes) => Ok(bytes),
        Err(err) => {
            let mut description = "Failed to convert to bytes: ".to_string();
            description.append(debug_text(&err).as_str());
            Err(parsing_error(description))
        },
    }
}

/// A JSON value is always written, whatever it holds: the bytes are those of its contents, and where
/// it is an object of texts they read back as these texts.
pub proof fn law_json_is_always_written(
    value: serde_json::Value,
    texts: Map<Seq<char>, Seq<char>>,
    written: Result<Vec<u8>, redis::ParsingError>,
)
    requires
        call_ensures(json_value_to_bytes, (&value,), written),
    ensures
        written matches Ok(bytes) && bytes@ == json_written(json_tree(value)),
        json_tree(value) == JsonTree::Object(
            texts.map_values(|text: Seq<char>| JsonTree::Text(text)),
        ) ==> json_string_map(written->Ok_0@) == Some(texts),
{
    assert(flat_object(texts) == JsonTree::Object(
        texts.map_values(|text: Seq<char>| JsonTree::Text(text)),
    ));
}

} // verus!
