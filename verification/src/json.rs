//! JSON values of `serde_json`, seen through what they hold.

use vstd::prelude::*;
use vstd::string::*;

verus! {

/// What a JSON value holds. A number is an integer if it was made from one, or is written
/// without a fraction and an exponent and fits 64 bits, signed or unsigned; only `-0` is none.
/// Of any other number its printed text is held.
pub enum Json {
    Null,
    Bool(bool),
    Integer(int),
    OtherNumber(Seq<char>),
    Text(Seq<char>),
    Array(Seq<Json>),
    Object(Map<Seq<char>, Json>),
}

impl Json {
    /// The field of an object; null for anything else and where there is none.
    pub open spec fn field(self, key: Seq<char>) -> Json {
        if self is Object && self->Object_0.contains_key(key) {
            self->Object_0[key]
        } else {
            Json::Null
        }
    }

    /// An object with one more field.
    pub open spec fn with(self, key: Seq<char>, value: Json) -> Json {
        Json::Object(self->Object_0.insert(key, value))
    }

    pub open spec fn empty() -> Json {
        Json::Object(Map::empty())
    }

    /// A text, or null where there is none.
    pub open spec fn optional_text(text: Option<Seq<char>>) -> Json {
        match text {
            Some(t) => Json::Text(t),
            None => Json::Null,
        }
    }

    /// An array of texts.
    pub open spec fn text_array(list: Seq<Seq<char>>) -> Json {
        Json::Array(list.map_values(|t: Seq<char>| Json::Text(t)))
    }
}

#[verifier::external_type_specification]
#[verifier::external_body]
pub struct ExValue(serde_json::Value);

/// What a value of `serde_json` holds.
pub uninterp spec fn held(value: serde_json::Value) -> Json;

/// What the values of a list hold.
pub open spec fn held_all(values: Seq<serde_json::Value>) -> Seq<Json> {
    values.map_values(|v: serde_json::Value| held(v))
}

/// The value that a JSON text denotes, or the words in which it is refused.
pub uninterp spec fn json_value(text: Seq<char>) -> Result<Json, Seq<char>>;

/// The JSON text of a value.
pub uninterp spec fn json_text(value: Json) -> Seq<char>;

/// `serde_json::from_str` reads a JSON value. Which texts it reads, and its words for
/// the others, are not stated.
#[verifier::external_body]
pub(crate) fn read_json(text: &str) -> (r: Result<serde_json::Value, String>)
    ensures
        match r {
            Ok(v) => json_value(text@) == Ok::<Json, Seq<char>>(held(v)),
            Err(e) => json_value(text@) == Err::<Json, Seq<char>>(e@),
        },
{
    serde_json::from_str(text).map_err(|error| error.to_string())
}

/// Whether a text stands between quotes and holds no control characters.
pub open spec fn is_quoted(s: Seq<char>) -> bool {
    &&& s.len() >= 2
    &&& s[0] == '"'
    &&& s.last() == '"'
    &&& forall|i: int| 0 <= i < s.len() ==> (#[trigger] s[i]) as u32 >= 0x20
}

/// Whether a value is an array of texts, truth values and nulls.
pub open spec fn is_flat(value: Json) -> bool {
    value matches Json::Array(items) && forall|i: int|
        0 <= i < items.len() ==> ((#[trigger] items[i]) is Text || items[i] is Bool
            || items[i] is Null)
}

/// `Value`'s `Display` writes the value as JSON without white space between its parts. A
/// text is written between quotes with its control characters escaped, and is read back
/// as the same text; an array of texts, truth values and nulls is read back as the same
/// array. The other characters are not stated.
#[verifier::external_body]
pub(crate) fn write_json(value: &serde_json::Value) -> (text: String)
    ensures
        text@ == json_text(held(*value)),
        held(*value) is Text ==> is_quoted(text@),
        held(*value) is Text ==> json_string_value(text@) == Some(held(*value)->Text_0),
        is_flat(held(*value)) ==> json_value(text@) is Ok && json_value(text@)->Ok_0 == held(
            *value,
        ),
{
    value.to_string()
}

/// `Value::get` gives the field of an object by its name, and nothing for other values.
#[verifier::external_body]
pub(crate) fn get_field<'a>(value: &'a serde_json::Value, key: &str) -> (r: Option<
    &'a serde_json::Value,
>)
    ensures
        match r {
            Some(field) => held(*value) is Object && held(*value)->Object_0.contains_key(key@)
                && held(*value)->Object_0[key@] == held(*field),
            None => !(held(*value) is Object && held(*value)->Object_0.contains_key(key@)),
        },
{
    value.get(key)
}

/// `Value::as_array` gives the elements of an array.
#[verifier::external_body]
pub(crate) fn as_array(value: &serde_json::Value) -> (r: Option<&Vec<serde_json::Value>>)
    ensures
        match r {
            Some(items) => held(*value) == Json::Array(held_all(items@)),
            None => !(held(*value) is Array),
        },
{
    value.as_array()
}

/// `Value::as_str` gives the characters of a text.
#[verifier::external_body]
pub(crate) fn as_str(value: &serde_json::Value) -> (r: Option<&str>)
    ensures
        match r {
            Some(text) => held(*value) == Json::Text(text@),
            None => !(held(*value) is Text),
        },
{
    value.as_str()
}

/// `Value::as_u64` gives an integer that fits a `u64`.
#[verifier::external_body]
pub(crate) fn as_u64(value: &serde_json::Value) -> (r: Option<u64>)
    ensures
        match held(*value) {
            Json::Integer(n) if 0 <= n <= u64::MAX => r == Some(n as u64),
            _ => r is None,
        },
{
    value.as_u64()
}

/// `Value::as_i64` gives an integer that fits an `i64`.
#[verifier::external_body]
pub(crate) fn as_i64(value: &serde_json::Value) -> (r: Option<i64>)
    ensures
        match held(*value) {
            Json::Integer(n) if i64::MIN <= n <= i64::MAX => r == Some(n as i64),
            _ => r is None,
        },
{
    value.as_i64()
}

/// `Value::as_bool` gives a truth value.
#[verifier::external_body]
pub(crate) fn as_bool(value: &serde_json::Value) -> (r: Option<bool>)
    ensures
        match held(*value) {
            Json::Bool(b) => r == Some(b),
            _ => r is None,
        },
{
    value.as_bool()
}

/// `Value::is_null` tells whether a value is null.
#[verifier::external_body]
pub(crate) fn is_null(value: &serde_json::Value) -> (b: bool)
    ensures
        b == (held(*value) is Null),
{
    value.is_null()
}

/// `Value::Null`.
#[verifier::external_body]
pub(crate) fn null() -> (value: serde_json::Value)
    ensures
        held(value) == Json::Null,
{
    serde_json::Value::Null
}

/// `Value::Bool`.
#[verifier::external_body]
pub(crate) fn boolean(b: bool) -> (value: serde_json::Value)
    ensures
        held(value) == Json::Bool(b),
{
    serde_json::Value::Bool(b)
}

/// `Value::from` makes an integer from an `i64`.
#[verifier::external_body]
pub(crate) fn integer(n: i64) -> (value: serde_json::Value)
    ensures
        held(value) == Json::Integer(n as int),
{
    serde_json::Value::from(n)
}

/// `Value::from` makes an integer from a `usize`.
#[verifier::external_body]
pub(crate) fn natural(n: usize) -> (value: serde_json::Value)
    ensures
        held(value) == Json::Integer(n as int),
{
    serde_json::Value::from(n)
}

/// `Value::String`.
#[verifier::external_body]
pub(crate) fn text_value(text: &str) -> (value: serde_json::Value)
    ensures
        held(value) == Json::Text(text@),
{
    serde_json::Value::String(text.to_string())
}

/// `Value::Array`.
#[verifier::external_body]
pub(crate) fn array(items: Vec<serde_json::Value>) -> (value: serde_json::Value)
    ensures
        held(value) == Json::Array(held_all(items@)),
{
    serde_json::Value::Array(items)
}

/// `Map::new` makes an object without fields.
#[verifier::external_body]
pub(crate) fn object() -> (value: serde_json::Value)
    ensures
        held(value) == Json::empty(),
{
    serde_json::Value::Object(serde_json::Map::new())
}

/// Indexing a `Value` that is an object by a name sets the field of that name. It panics
/// on a value that is neither an object nor null.
#[verifier::external_body]
pub(crate) fn with_field(
    value: serde_json::Value,
    key: &str,
    field: serde_json::Value,
) -> (r: serde_json::Value)
    requires
        held(value) is Object,
    ensures
        held(r) == held(value).with(key@, held(field)),
{
    let mut value = value;
    value[key] = field;
    value
}

/// A text as a value, or null where there is none.
pub(crate) fn optional_text_value(text: &Option<String>) -> (value: serde_json::Value)
    ensures
        held(value) == Json::optional_text(crate::text::text_option(*text)),
{
    match text {
        Some(t) => text_value(t.as_str()),
        None => null(),
    }
}

/// A list of texts as an array.
pub(crate) fn text_list_value(list: &Vec<String>) -> (value: serde_json::Value)
    ensures
        held(value) == Json::text_array(crate::text::texts(list@)),
{
    let mut items: Vec<serde_json::Value> = Vec::new();
    let mut i: usize = 0;
    while i < list.len()
        invariant
            i <= list@.len(),
            held_all(items@) == Json::text_array(crate::text::texts(list@).take(i as int))->Array_0,
        decreases list@.len() - i,
    {
        let ghost before = items@;
        items.push(text_value(list[i].as_str()));
        assert(held_all(items@) =~= held_all(before).push(Json::Text(list@[i as int]@)));
        assert(crate::text::texts(list@).take(i + 1) =~= crate::text::texts(list@).take(
            i as int,
        ).push(list@[i as int]@));
        i = i + 1;
        assert(held_all(items@) =~= Json::text_array(
            crate::text::texts(list@).take(i as int),
        )->Array_0);
    }
    assert(crate::text::texts(list@).take(list@.len() as int) =~= crate::text::texts(list@));
    array(items)
}

/// The field of an object; nothing where it is missing or null or the value is no object.
pub(crate) fn present_field<'a>(value: &'a serde_json::Value, key: &str) -> (r: Option<
    &'a serde_json::Value,
>)
    ensures
        match r {
            Some(field) => held(*field) == held(*value).field(key@),
            None => held(*value).field(key@) is Null,
        },
{
    get_field(value, key)
}

/// The value of a text that is one JSON string; nothing for any other text.
pub uninterp spec fn json_string_value(text: Seq<char>) -> Option<Seq<char>>;

/// `serde_json::from_str::<String>` reads a JSON string. Which other texts it refuses is
/// not stated.
#[verifier::external_body]
pub(crate) fn read_string(text: &str) -> (r: Option<String>)
    ensures
        crate::text::text_option(r) == json_string_value(text@),
{
    serde_json::from_str::<String>(text).ok()
}

/// Pairs of texts by their characters.
pub open spec fn text_pairs(list: Seq<(String, String)>) -> Seq<(Seq<char>, Seq<char>)> {
    list.map_values(|pair: (String, String)| (pair.0@, pair.1@))
}

/// The fields of a text that is one JSON object whose fields are all texts, or the words in
/// which it is refused.
pub uninterp spec fn text_entries(text: Seq<char>) -> Result<
    Seq<(Seq<char>, Seq<char>)>,
    Seq<char>,
>;

/// `serde_json::from_str` reads a JSON object of texts into a `BTreeMap`, which gives its
/// entries by ascending keys. Which texts it reads, and its words for the others, are not
/// stated.
#[verifier::external_body]
pub(crate) fn read_text_entries(text: &str) -> (r: Result<Vec<(String, String)>, String>)
    ensures
        match r {
            Ok(list) => text_entries(text@) is Ok && text_entries(text@)->Ok_0 == text_pairs(
                list@,
            ),
            Err(e) => text_entries(text@) is Err && text_entries(text@)->Err_0 == e@,
        },
{
    match serde_json::from_str::<std::collections::BTreeMap<String, String>>(text) {
        Ok(map) => Ok(map.into_iter().collect()),
        Err(error) => Err(error.to_string()),
    }
}

} // verus!
