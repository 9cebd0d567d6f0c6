//! JSON as text: parsing and printing, done by the `json` crate. The values
//! of that crate stay inside this module; the rest of the library works on
//! [`Json`].

use vstd::prelude::*;
use vstd::string::StringSliceAdditionalSpecFns;
use vstd::utf8::{decode_utf8, encode_utf8, valid_utf8};
use crate::json::{Json, JsonModel, Number};

verus! {

/// The value type of the `json` crate. Nothing is known of what is inside.
#[verifier::external_type_specification]
#[verifier::external_body]
pub struct ExJsonValue(json::JsonValue);

/// The longest text, in bytes of UTF-8, that is handed to the parser. The
/// parser counts the digits of a fraction in sixteen bits and checks nothing
/// as long as the digits are zeros, so a longer text could take the count out
/// of its range.
pub const MAX_JSON_TEXT: usize = 32767;

/// The value that the `json` crate reads out of a text; none where it rejects
/// the text.
pub uninterp spec fn json_parse(text: Seq<char>) -> Option<JsonModel>;

/// The JSON value that a text spells: what the parser reads out of it, and
/// none for a text of more than `MAX_JSON_TEXT` bytes.
pub open spec fn json_of(text: Seq<char>) -> Option<JsonModel> {
    if encode_utf8(text).len() <= MAX_JSON_TEXT {
        json_parse(text)
    } else {
        None
    }
}

/// What a value of the `json` crate holds.
pub uninterp spec fn value_model(value: json::JsonValue) -> JsonModel;

/// The text that the `json` crate prints for one of its values.
pub uninterp spec fn value_text(value: json::JsonValue) -> Seq<char>;

/// The text that the `json` crate prints for a JSON value of this library.
pub uninterp spec fn json_text(json: JsonModel) -> Seq<char>;

/// `json::parse`: the value of a text, or none where the crate reports an
/// error. The contract names the result, which claims that the same text
/// gives the same value; and it claims one thing that the parser shows in so
/// many words, that the text `null` is the value null. With overflow checks
/// on, the parser panics on a fraction of more than 32768 digits that are all
/// zeros; `requires` leaves every text out that is long enough to hold one.
#[verifier::external_body]
fn parse_value(text: &str) -> (r: Option<json::JsonValue>)
    requires
        text.spec_bytes().len() <= MAX_JSON_TEXT,
    ensures
        json_parse(text@) == match r {
            Some(value) => Some(value_model(value)),
            None => None,
        },
        match r {
            Some(value) => text@ == "null"@ ==> value_model(value) == JsonModel::Null,
            None => text@ != "null"@,
        },
{
    json::parse(text).ok()
}

/// Carries a value of the `json` crate over into a [`Json`], variant by
/// variant: a number by `Number::as_parts`, a short and a long string alike by
/// their text, the items of an array in order, the members of an object by
/// `Object::iter`, which walks them in the order of their insertion. The
/// contract names what comes out as what the value holds.
#[verifier::external_body]
fn read_value(value: &json::JsonValue) -> (r: Json)
    ensures
        r@ == value_model(*value),
{
    match value {
        json::JsonValue::Null => Json::Null,
        json::JsonValue::Boolean(b) => Json::Boolean(*b),
        json::JsonValue::Number(n) => {
            let (positive, mantissa, exponent) = n.as_parts();
            Json::Number(Number { positive, mantissa, exponent })
        },
        json::JsonValue::Short(text) => Json::String(text.as_str().to_owned()),
        json::JsonValue::String(text) => Json::String(text.clone()),
        json::JsonValue::Array(items) => Json::Array(items.iter().map(read_value).collect()),
        json::JsonValue::Object(members) => Json::Object(
            members.iter().map(|(key, value)| (key.to_owned(), read_value(value))).collect(),
        ),
    }
}

/// Builds the value of the `json` crate for a [`Json`], variant by variant: a
/// number by `Number::from_parts`, an object by collecting its members in
/// order. The contract claims that the text which the crate prints for the
/// value depends on nothing but what the [`Json`] holds, and names it.
#[verifier::external_body]
fn write_value(json: &Json) -> (r: json::JsonValue)
    ensures
        value_text(r) == json_text(json@),
{
    match json {
        Json::Null => json::JsonValue::Null,
        Json::Boolean(b) => json::JsonValue::Boolean(*b),
        Json::Number(n) => json::JsonValue::Number(
            json::number::Number::from_parts(n.positive, n.mantissa, n.exponent),
        ),
        Json::String(text) => json::JsonValue::String(text.clone()),
        Json::Array(items) => json::JsonValue::Array(items.iter().map(write_value).collect()),
        Json::Object(members) => json::JsonValue::Object(
            members.iter().map(|(key, value)| (key.as_str(), write_value(value))).collect(),
        ),
    }
}

/// `JsonValue::dump`: the value as JSON text, without added white space.
#[verifier::external_body]
fn dump_value(value: &json::JsonValue) -> (r: String)
    ensures
        r@ == value_text(*value),
{
    value.dump()
}

/// `String::from_utf8`: the text that the bytes spell, if they are UTF-8.
#[verifier::external_body]
pub(crate) fn string_from_utf8(bytes: Vec<u8>) -> (r: Option<String>)
    ensures
        r is Some <==> valid_utf8(bytes@),
        r matches Some(text) ==> text@ == decode_utf8(bytes@),
{
    String::from_utf8(bytes).ok()
}

/// The JSON value that `text` spells, if it spells one. A text of more than
/// `MAX_JSON_TEXT` bytes is not read and spells none. The text `null` spells
/// null.
pub fn parse_json(text: &str) -> (r: Option<Json>)
    ensures
        match json_of(text@) {
            Some(json) => r matches Some(found) && found@ == json,
            None => r is None,
        },
        encode_utf8(text@).len() > MAX_JSON_TEXT ==> r is None,
        text@ == "null"@ ==> json_of(text@) == Some(JsonModel::Null),
{
    if text.as_bytes().len() > MAX_JSON_TEXT {
        proof {
            lemma_null_is_short();
        }
        return None;
    }
    match parse_value(text) {
        Some(value) => Some(read_value(&value)),
        None => None,
    }
}

/// The text `null` has four bytes.
pub proof fn lemma_null_is_short()
    ensures
        encode_utf8("null"@).len() == 4,
{
    reveal_strlit("null");
    assert(vstd::utf8::is_ascii_chars("null"@));
    vstd::utf8::is_ascii_chars_encode_utf8("null"@);
}

/// `json` as text.
pub fn print_json(json: &Json) -> (text: String)
    ensures
        text@ == json_text(json@),
{
    let value = write_value(json);
    dump_value(&value)
}

} // verus!
