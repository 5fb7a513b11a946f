//! JSON documents: the values of `serde_json`, what they hold as mathematical
//! values, and the calls into that crate, each with the contract that the rest
//! of the library relies on.
//!
//! Nothing in this file is proved. The contracts hold of `serde_json` built
//! with its feature `preserve_order` and without `arbitrary_precision`: an
//! object then keeps its members in the order in which they were put in, and
//! a whole number is held as 64 bits.

use vstd::prelude::*;

verus! {

/// What a JSON value holds. A number written without fraction or exponent that
/// lies between `i64::MIN` and `u64::MAX` is an `Integer`; any other number is a
/// `Float`, here the bits of its double. An object holds its members, each a
/// key and a value, in their order; in what a `serde_json::Value` holds no two
/// of them have the same key.
pub enum Json {
    Null,
    Bool(bool),
    Integer(int),
    Float(u64),
    Text(Seq<char>),
    List(Seq<Json>),
    Object(Seq<(Seq<char>, Json)>),
}

/// The value under `key` among `members`: that of the last member with that
/// key, which is the only one where the keys are distinct.
pub open spec fn lookup(members: Seq<(Seq<char>, Json)>, key: Seq<char>) -> Option<Json>
    decreases members.len(),
{
    if members.len() == 0 {
        None
    } else if members.last().0 == key {
        Some(members.last().1)
    } else {
        lookup(members.drop_last(), key)
    }
}

/// The member `key` of an object; nothing for another value or a missing key.
pub open spec fn member_of(doc: Json, key: Seq<char>) -> Option<Json> {
    match doc {
        Json::Object(members) => lookup(members, key),
        _ => None,
    }
}

/// The integer that a value holds, where it fits in 64 signed bits.
pub open spec fn integer_of(doc: Json) -> Option<int> {
    match doc {
        Json::Integer(i) => if i64::MIN <= i <= i64::MAX {
            Some(i)
        } else {
            None
        },
        _ => None,
    }
}

/// The text that a value holds.
pub open spec fn text_of(doc: Json) -> Option<Seq<char>> {
    match doc {
        Json::Text(text) => Some(text),
        _ => None,
    }
}

/// The truth value that a value holds.
pub open spec fn bool_of(doc: Json) -> Option<bool> {
    match doc {
        Json::Bool(b) => Some(b),
        _ => None,
    }
}

/// The items that a value holds.
pub open spec fn items_of(doc: Json) -> Option<Seq<Json>> {
    match doc {
        Json::List(items) => Some(items),
        _ => None,
    }
}

/// The members that a list of entries makes up, in the same order.
pub open spec fn members_of(entries: Seq<(String, serde_json::Value)>) -> Seq<(Seq<char>, Json)> {
    entries.map_values(|entry: (String, serde_json::Value)| (entry.0@, json_of(entry.1)))
}

/// No two entries have the same key.
pub open spec fn distinct_keys(entries: Seq<(String, serde_json::Value)>) -> bool {
    forall|i: int, j: int|
        0 <= i < j < entries.len() ==> (#[trigger] entries[i]).0@ != (#[trigger] entries[j]).0@
}

/// What each value of a sequence holds, in the same order.
pub open spec fn jsons_of(values: Seq<serde_json::Value>) -> Seq<Json> {
    values.map_values(|value: serde_json::Value| json_of(value))
}

/// Trusted: `serde_json::Value`, opaque to the verifier.
#[verifier::external_type_specification]
#[verifier::external_body]
pub struct ExValue(serde_json::Value);

/// Trusted: `serde_json::Error`, opaque to the verifier.
#[verifier::external_type_specification]
#[verifier::external_body]
pub struct ExError(serde_json::Error);

/// What a `serde_json::Value` holds.
pub uninterp spec fn json_of(value: serde_json::Value) -> Json;

/// What `serde_json::from_str` reads from a text: the document, or nothing
/// where the text is not one JSON value.
pub uninterp spec fn json_parse(text: Seq<char>) -> Option<Json>;

/// The text that `serde_json::to_string_pretty` writes for a document.
pub uninterp spec fn json_pretty(doc: Json) -> Seq<char>;

/// Trusted: `serde_json::from_str` at `Value`. The contract names what it
/// reads: it succeeds exactly on the texts that `json_parse` accepts, and the
/// value then holds the document that `json_parse` gives.
#[verifier::external_body]
pub(crate) fn parse_value(text: &str) -> (parsed: Result<serde_json::Value, serde_json::Error>)
    ensures
        match parsed {
            Ok(value) => json_parse(text@) == Some(json_of(value)),
            Err(_) => json_parse(text@) is None,
        },
{
    serde_json::from_str::<serde_json::Value>(text)
}

/// Trusted: `serde_json::to_string_pretty` at `Value`. The contract names the
/// text that it writes and claims that it always writes one: the text goes to
/// a vector in memory, the keys of an object are strings, and no kind of value
/// is refused.
#[verifier::external_body]
pub(crate) fn pretty_text(value: &serde_json::Value) -> (written: Result<
    String,
    serde_json::Error,
>)
    ensures
        written is Ok,
        written matches Ok(text) ==> text@ == json_pretty(json_of(*value)),
{
    serde_json::to_string_pretty(value)
}

/// Trusted: `serde_json::Value::get` with a string key. It gives the member
/// under `key` where the value is an object that has one, and nothing
/// otherwise.
#[verifier::external_body]
pub(crate) fn member<'a>(value: &'a serde_json::Value, key: &str) -> (found: Option<
    &'a serde_json::Value,
>)
    ensures
        match found {
            Some(inner) => member_of(json_of(*value), key@) == Some(json_of(*inner)),
            None => member_of(json_of(*value), key@) is None,
        },
{
    value.get(key)
}

/// Trusted: `serde_json::Value::as_i64` gives the integer that the value
/// holds where it fits in 64 signed bits, and nothing otherwise.
pub assume_specification[ serde_json::Value::as_i64 ](value: &serde_json::Value) -> (found: Option<
    i64,
>)
    ensures
        match found {
            Some(i) => integer_of(json_of(*value)) == Some(i as int),
            None => integer_of(json_of(*value)) is None,
        },
;

/// Trusted: `serde_json::Value::as_str` gives the text of a string value and
/// nothing for any other value.
pub assume_specification<'a>[ serde_json::Value::as_str ](value: &'a serde_json::Value) -> (found:
    Option<&'a str>)
    ensures
        match found {
            Some(text) => text_of(json_of(*value)) == Some(text@),
            None => text_of(json_of(*value)) is None,
        },
;

/// Trusted: `serde_json::Value::as_bool` gives the truth value of a boolean
/// and nothing for any other value.
pub assume_specification[ serde_json::Value::as_bool ](value: &serde_json::Value) -> (found: Option<
    bool,
>)
    ensures
        match found {
            Some(b) => bool_of(json_of(*value)) == Some(b),
            None => bool_of(json_of(*value)) is None,
        },
;

/// Trusted: `serde_json::Value::as_array` gives the items of an array, in
/// order, and nothing for any other value.
pub assume_specification<'a>[ serde_json::Value::as_array ](value: &'a serde_json::Value) -> (found:
    Option<&'a Vec<serde_json::Value>>)
    ensures
        match found {
            Some(items) => items_of(json_of(*value)) == Some(jsons_of(items@)),
            None => items_of(json_of(*value)) is None,
        },
;

/// Trusted: `Value::from` at `i64` makes the number that holds that integer.
#[verifier::external_body]
pub(crate) fn integer_value(i: i64) -> (value: serde_json::Value)
    ensures
        json_of(value) == Json::Integer(i as int),
{
    serde_json::Value::from(i)
}

/// Trusted: `Value::from` at `bool` makes the boolean.
#[verifier::external_body]
pub(crate) fn bool_value(b: bool) -> (value: serde_json::Value)
    ensures
        json_of(value) == Json::Bool(b),
{
    serde_json::Value::from(b)
}

/// Trusted: `Value::from` at `String` makes the string value with that text.
#[verifier::external_body]
pub(crate) fn text_value(text: String) -> (value: serde_json::Value)
    ensures
        json_of(value) == Json::Text(text@),
{
    serde_json::Value::from(text)
}

/// Trusted: `serde_json::Value::Array` makes the array of the given items, in
/// order.
#[verifier::external_body]
pub(crate) fn list_value(items: Vec<serde_json::Value>) -> (value: serde_json::Value)
    ensures
        json_of(value) == Json::List(jsons_of(items@)),
{
    serde_json::Value::Array(items)
}

/// Trusted: `serde_json::Value::Object` over the map that `serde_json::Map`
/// collects from the entries. With distinct keys the object has exactly these
/// members, in this order.
#[verifier::external_body]
pub(crate) fn object_value(entries: Vec<(String, serde_json::Value)>) -> (value: serde_json::Value)
    requires
        distinct_keys(entries@),
    ensures
        json_of(value) == Json::Object(members_of(entries@)),
{
    serde_json::Value::Object(entries.into_iter().collect())
}

} // verus!
