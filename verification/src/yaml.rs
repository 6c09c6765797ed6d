//! The boundary to `serde_yaml`: its document types, and one function here
//! for each of its functions that the hierarchy calls. Nothing in this file
//! is proved; every contract restates what the crate does.
use serde::Deserialize;
use serde_yaml::Error as YamlError;
use serde_yaml::Mapping;
use serde_yaml::Value;
use vstd::prelude::*;

verus! {

/// A YAML value of `serde_yaml`. Opaque here: it is looked up, copied,
/// decoded and stored, never taken apart.
#[verifier::external_type_specification]
#[verifier::external_body]
pub struct ExValue(serde_yaml::Value);

/// A YAML mapping of `serde_yaml`, from values to values, in insertion order.
#[verifier::external_type_specification]
#[verifier::external_body]
pub struct ExMapping(serde_yaml::Mapping);

/// The error of `serde_yaml`.
#[verifier::external_type_specification]
#[verifier::external_body]
pub struct ExYamlError(serde_yaml::Error);

/// What a mapping holds under its string keys: for each string that is a
/// key of the mapping, the value filed under it.
pub uninterp spec fn mapping_strings(mapping: Mapping) -> Map<Seq<char>, Value>;

/// The contents of a mapping without entries.
pub open spec fn no_entries() -> Map<Seq<char>, Value> {
    Map::empty()
}

/// The value that `serde_yaml::from_str` reads from a text, if it reads one.
pub uninterp spec fn parsed_document(text: Seq<char>) -> Option<Value>;

/// The mapping inside a value, if the value is a mapping.
pub uninterp spec fn mapping_of_value(value: Value) -> Option<Mapping>;

/// The string value with the given text.
pub uninterp spec fn value_of_string(text: Seq<char>) -> Value;

/// The sequence value with the given items.
pub uninterp spec fn value_of_sequence(items: Seq<Value>) -> Value;

/// What a value decodes to when a string is asked for.
pub uninterp spec fn decoded_string(value: Value) -> Option<Seq<char>>;

/// What a value decodes to when a list of strings is asked for.
pub uninterp spec fn decoded_strings(value: Value) -> Option<Seq<Seq<char>>>;

/// What a value decodes to when any value is asked for.
pub uninterp spec fn decoded_value(value: Value) -> Option<Value>;

/// What a value decodes to when a list of values is asked for.
pub uninterp spec fn decoded_values(value: Value) -> Option<Seq<Value>>;

/// `serde_yaml::from_str` at type `Value`: parses one YAML document. The
/// outcome is a function of the text alone.
#[verifier::external_body]
pub(crate) fn parse_document(text: &str) -> (outcome: Result<Value, YamlError>)
    ensures
        match outcome {
            Ok(value) => parsed_document(text@) == Some(value),
            Err(_) => parsed_document(text@) is None,
        },
{
    serde_yaml::from_str::<Value>(text)
}

/// Tells the `Mapping` variant of `serde_yaml::Value` from the others and
/// hands out what it holds.
#[verifier::external_body]
pub(crate) fn into_mapping(value: Value) -> (inner: Option<Mapping>)
    ensures
        inner == mapping_of_value(value),
{
    match value {
        Value::Mapping(mapping) => Some(mapping),
        _ => None,
    }
}

/// `Mapping::new`: a mapping without entries.
#[verifier::external_body]
pub(crate) fn mapping_new() -> (made: Mapping)
    ensures
        mapping_strings(made) == no_entries(),
{
    Mapping::new()
}

/// `Mapping::get` with a string key: the value filed under that string, or
/// `None` where the mapping has no such key.
#[verifier::external_body]
pub(crate) fn mapping_get<'a>(mapping: &'a Mapping, key: &str) -> (found: Option<&'a Value>)
    ensures
        match found {
            Some(value) => mapping_strings(*mapping).contains_key(key@) && mapping_strings(
                *mapping,
            )[key@] == *value,
            None => !mapping_strings(*mapping).contains_key(key@),
        },
{
    mapping.get(&Value::String(key.to_string()))
}

/// `Mapping::insert` with a string key: files the value under that string,
/// in place of what was there, and leaves every other key alone.
#[verifier::external_body]
pub(crate) fn mapping_insert(mapping: &mut Mapping, key: &str, value: Value)
    ensures
        mapping_strings(*final(mapping)) == mapping_strings(*old(mapping)).insert(key@, value),
{
    mapping.insert(Value::String(key.to_string()), value);
}

/// `Value::clone`: a copy equal to the value it was made from.
#[verifier::external_body]
pub(crate) fn clone_value(value: &Value) -> (copy: Value)
    ensures
        copy == *value,
{
    value.clone()
}

/// The `String` variant of `serde_yaml::Value`.
#[verifier::external_body]
pub(crate) fn string_value(text: String) -> (value: Value)
    ensures
        value == value_of_string(text@),
{
    Value::String(text)
}

/// The `Sequence` variant of `serde_yaml::Value`.
#[verifier::external_body]
pub(crate) fn sequence_value(items: Vec<Value>) -> (value: Value)
    ensures
        value == value_of_sequence(items@),
{
    Value::Sequence(items)
}

/// `String::deserialize` from a `Value`. The outcome is a function of the
/// value alone.
#[verifier::external_body]
pub(crate) fn string_from_value(value: Value) -> (outcome: Result<String, YamlError>)
    ensures
        match outcome {
            Ok(text) => decoded_string(value) == Some(text@),
            Err(_) => decoded_string(value) is None,
        },
{
    String::deserialize(value)
}

/// `Vec::<String>::deserialize` from a `Value`. The outcome is a function
/// of the value alone.
#[verifier::external_body]
pub(crate) fn strings_from_value(value: Value) -> (outcome: Result<
    Vec<String>,
    YamlError,
>)
    ensures
        match outcome {
            Ok(texts) => decoded_strings(value) == Some(texts@.map_values(|s: String| s@)),
            Err(_) => decoded_strings(value) is None,
        },
{
    Vec::<String>::deserialize(value)
}

/// `Value::deserialize` from a `Value`. The outcome is a function of the
/// value alone.
#[verifier::external_body]
pub(crate) fn value_from_value(value: Value) -> (outcome: Result<Value, YamlError>)
    ensures
        match outcome {
            Ok(decoded) => decoded_value(value) == Some(decoded),
            Err(_) => decoded_value(value) is None,
        },
{
    Value::deserialize(value)
}

/// `Vec::<Value>::deserialize` from a `Value`. The outcome is a function of
/// the value alone.
#[verifier::external_body]
pub(crate) fn values_from_value(value: Value) -> (outcome: Result<Vec<Value>, YamlError>)
    ensures
        match outcome {
            Ok(items) => decoded_values(value) == Some(items@),
            Err(_) => decoded_values(value) is None,
        },
{
    Vec::<Value>::deserialize(value)
}

/// The message of a `serde_yaml::Error`, as its `Display` writes it.
/// Nothing is claimed of the text.
#[verifier::external_body]
pub(crate) fn error_text(error: &YamlError) -> (text: String) {
    error.to_string()
}

} // verus!
