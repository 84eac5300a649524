//! Reading the metadata of a sprite sheet, a TOML document, with the
//! `toml` crate.
//!
//! The document is held as the crate's own `Value`, which is opaque here:
//! what it holds is known through the few questions below, each one method
//! of the crate. Each question has a name in specifications, so that what
//! is read from a document can be stated exactly.

use vstd::prelude::*;

verus! {

/// A TOML value of the `toml` crate.
#[verifier::external_type_specification]
#[verifier::external_body]
pub struct ExTomlValue(toml::Value);

/// A map of the `toml` crate: the payload of a table.
#[verifier::external_type_specification]
#[verifier::external_body]
#[verifier::reject_recursive_types(K)]
#[verifier::reject_recursive_types(V)]
pub struct ExTomlMap<K, V>(toml::map::Map<K, V>);

/// The document that a text is, where it is one.
pub uninterp spec fn document(text: Seq<char>) -> Option<toml::Value>;

/// The value under a key of a table; `None` where the value is no table
/// or has no such key.
pub uninterp spec fn member(value: toml::Value, key: Seq<char>) -> Option<toml::Value>;

/// The value at an index of an array; `None` where the value is no array
/// or is shorter.
pub uninterp spec fn element(value: toml::Value, index: int) -> Option<toml::Value>;

/// The integer that a value is; `None` where it is of another type.
pub uninterp spec fn integer(value: toml::Value) -> Option<i64>;

/// The table that a value is; `None` where it is of another type.
pub uninterp spec fn table(value: toml::Value) -> Option<toml::map::Map<String, toml::Value>>;

/// The keys of a table, in the order in which the table yields them.
pub uninterp spec fn keys(table: toml::map::Map<String, toml::Value>) -> Seq<Seq<char>>;

/// Parses a text by the `FromStr` impl of `toml::Value`, which reads the
/// whole text as one document and depends on nothing but the text.
#[verifier::external_body]
pub(crate) fn parse_document(text: &str) -> (result: Result<toml::Value, toml::de::Error>)
    ensures
        result is Ok <==> document(text@) is Some,
        result matches Ok(value) ==> document(text@) == Some(value),
{
    text.parse::<toml::Value>()
}

/// `Value::get` with a key: the value under the key where `value` is a
/// table that has it.
#[verifier::external_body]
pub(crate) fn value_member<'a>(value: &'a toml::Value, key: &str) -> (result: Option<
    &'a toml::Value,
>)
    ensures
        result is Some <==> member(*value, key@) is Some,
        result matches Some(found) ==> member(*value, key@) == Some(*found),
{
    value.get(key)
}

/// `Value::get` with an index: the value at the index where `value` is an
/// array that is long enough.
#[verifier::external_body]
pub(crate) fn value_element<'a>(value: &'a toml::Value, index: usize) -> (result: Option<
    &'a toml::Value,
>)
    ensures
        result is Some <==> element(*value, index as int) is Some,
        result matches Some(found) ==> element(*value, index as int) == Some(*found),
{
    value.get(index)
}

/// `Value::as_integer`: the integer where `value` is one.
#[verifier::external_body]
pub(crate) fn value_integer(value: &toml::Value) -> (result: Option<i64>)
    ensures
        result == integer(*value),
{
    value.as_integer()
}

/// `Value::as_table`: the table where `value` is one.
#[verifier::external_body]
pub(crate) fn value_table<'a>(value: &'a toml::Value) -> (result: Option<
    &'a toml::map::Map<String, toml::Value>,
>)
    ensures
        result is Some <==> table(*value) is Some,
        result matches Some(found) ==> table(*value) == Some(*found),
{
    value.as_table()
}

/// `Map::keys`: the keys of the table, each copied.
#[verifier::external_body]
pub(crate) fn table_keys(table: &toml::map::Map<String, toml::Value>) -> (result: Vec<String>)
    ensures
        result@.len() == keys(*table).len(),
        forall|i: int| 0 <= i < result@.len() ==> (#[trigger] result@[i])@ == keys(*table)[i],
{
    table.keys().cloned().collect()
}

} // verus!
