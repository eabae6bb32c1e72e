//! The calls into other crates, and into parts of the standard library that
//! have no specification of their own. What these items claim is not proved.

use crate::agent_runtime::citations;
use crate::json;
use crate::json::Json;
use crate::json::JsonTree;
use crate::text;
use vstd::prelude::*;

verus! {

/// An error of `serde_json`.
#[verifier::external_type_specification]
#[verifier::external_body]
pub struct ExJsonError(serde_json::Error);

/// A number of `serde_json`.
#[verifier::external_type_specification]
#[verifier::external_body]
pub struct ExJsonNumber(serde_json::Number);

/// `serde_json::Number::clone`.
#[verifier::external_body]
pub(crate) fn copy_number(number: &serde_json::Number) -> (copy: serde_json::Number)
    ensures
        copy == *number,
{
    number.clone()
}

/// Whether `serde_json::Error::classify` puts an error in `Category::Eof`.
pub uninterp spec fn input_ended(err: serde_json::Error) -> bool;

/// How an error of `serde_json` reads.
pub uninterp spec fn json_error_rendering(err: serde_json::Error) -> Seq<char>;

/// `serde_json::Error::is_eof`: whether the input ran out before the value was
/// complete, which is what `classify` calls `Category::Eof`.
#[verifier::external_body]
pub(crate) fn json_input_ended(err: &serde_json::Error) -> (yes: bool)
    ensures
        yes == input_ended(*err),
{
    err.is_eof()
}

/// The `Display` rendering of a `serde_json::Error`.
#[verifier::external_body]
pub(crate) fn json_error_text(err: &serde_json::Error) -> (text: String)
    ensures
        text@ == json_error_rendering(*err),
{
    err.to_string()
}

/// A value of `serde_json`.
#[verifier::external_type_specification]
#[verifier::external_body]
pub struct ExJsonValue(serde_json::Value);

/// What a value of `serde_json` holds.
pub uninterp spec fn json_tree(value: serde_json::Value) -> JsonTree;

/// What `serde_json::from_str::<serde_json::Value>` reads in a text.
pub uninterp spec fn json_value(text: Seq<char>) -> Option<JsonTree>;

/// What `serde_json::to_string` writes for a value.
pub uninterp spec fn json_text(tree: JsonTree) -> Seq<char>;

/// What a value of `serde_json` holds when it is built from plain data.
pub uninterp spec fn value_tree(tree: JsonTree) -> JsonTree;

/// `serde_json::from_str::<serde_json::Value>`.
#[verifier::external_body]
pub(crate) fn read_json(text: &str) -> (value: Result<serde_json::Value, serde_json::Error>)
    ensures
        match value {
            Ok(value) => json_value(text@) == Some(json_tree(value)),
            Err(_) => json_value(text@) is None,
        },
{
    serde_json::from_str::<serde_json::Value>(text)
}

/// What `serde_json::from_slice::<serde_json::Value>` reads in bytes.
pub uninterp spec fn json_in_bytes(bytes: Seq<u8>) -> Option<JsonTree>;

/// `serde_json::from_slice::<serde_json::Value>`. Of bytes that are UTF-8 it
/// reads what `from_str` reads in the text that they encode.
#[verifier::external_body]
pub(crate) fn read_json_bytes(bytes: &Vec<u8>) -> (value: Result<
    serde_json::Value,
    serde_json::Error,
>)
    ensures
        match value {
            Ok(value) => json_in_bytes(bytes@) == Some(json_tree(value)),
            Err(_) => json_in_bytes(bytes@) is None,
        },
        vstd::utf8::valid_utf8(bytes@) ==> match value {
            Ok(value) => json_value(vstd::utf8::decode_utf8(bytes@)) == Some(json_tree(value)),
            Err(_) => json_value(vstd::utf8::decode_utf8(bytes@)) is None,
        },
{
    serde_json::from_slice::<serde_json::Value>(bytes)
}

/// Takes a `serde_json::Value` apart. `Number::as_u64` and `Number::as_i64`
/// tell its kinds of numbers apart.
#[verifier::external_body]
pub(crate) fn json_of(value: serde_json::Value) -> (json: Json)
    ensures
        json@ == json_tree(value),
{
    match value {
        serde_json::Value::Null => Json::Null,
        serde_json::Value::Bool(yes) => Json::Bool(yes),
        serde_json::Value::Number(number) => match (number.as_u64(), number.as_i64()) {
            (Some(n), _) => Json::Natural(n),
            (None, Some(n)) => Json::Negative(n),
            (None, None) => Json::Fraction(number),
        },
        serde_json::Value::String(text) => Json::Text(text),
        serde_json::Value::Array(items) => Json::List(items.into_iter().map(json_of).collect()),
        serde_json::Value::Object(fields) => Json::Object(
            fields.into_iter().map(|(key, value)| (key, json_of(value))).collect(),
        ),
    }
}

/// Builds a `serde_json::Value`. It holds what it was built from where that
/// has no other numbers than integers. Of other numbers only that the result
/// depends on nothing else is stated.
#[verifier::external_body]
pub(crate) fn value_of(json: Json) -> (value: serde_json::Value)
    ensures
        json_tree(value) == value_tree(json@),
        json::plain(json@, 127) ==> json_tree(value) == json@,
{
    match json {
        Json::Null => serde_json::Value::Null,
        Json::Bool(yes) => serde_json::Value::Bool(yes),
        Json::Natural(n) => serde_json::Value::from(n),
        Json::Negative(n) => serde_json::Value::from(n),
        Json::Fraction(number) => serde_json::Value::Number(number),
        Json::Text(text) => serde_json::Value::String(text),
        Json::List(items) => serde_json::Value::Array(items.into_iter().map(value_of).collect()),
        Json::Object(entries) => serde_json::Value::Object(
            entries.into_iter().map(|(key, json)| (key, value_of(json))).collect(),
        ),
    }
}

/// `serde_json::to_string` of a value, which cannot fail: a value's keys are
/// strings and its numbers are finite. Reading the text gives the value back,
/// where its numbers are integers and the parser's limit on nesting allows it.
/// The text has no white space around it and is a single line, for control
/// characters in strings are escaped; and it is JSON, as `[DONE]` is not. The
/// fields of an object stand in the order of their keys, so that the text
/// depends on what the value holds alone.
#[verifier::external_body]
pub(crate) fn write_json(value: &serde_json::Value) -> (text: String)
    ensures
        text@ == json_text(json_tree(*value)),
        json::plain(json_tree(*value), 127) ==> json_value(text@) == Some(json_tree(*value)),
        json::solid_line(text@),
        text@ != "[DONE]"@,
{
    serde_json::to_string(value).unwrap_or_default()
}

/// What `serde_json::to_string_pretty` writes for a value.
pub uninterp spec fn json_pretty_text(tree: JsonTree) -> Seq<char>;

/// `serde_json::to_string_pretty` of a value, which cannot fail for the reasons
/// that `to_string` cannot.
#[verifier::external_body]
pub(crate) fn write_json_pretty(value: &serde_json::Value) -> (text: String)
    ensures
        text@ == json_pretty_text(json_tree(*value)),
{
    serde_json::to_string_pretty(value).unwrap_or_default()
}

/// The integer part of a number that is no integer, kept within 32 bits.
pub uninterp spec fn integer_part(number: serde_json::Number) -> Option<i32>;

/// `serde_json::Number::as_f64`, cut to an integer of 32 bits with a sign.
#[verifier::external_body]
pub(crate) fn number_integer_part(number: &serde_json::Number) -> (part: Option<i32>)
    ensures
        part == integer_part(*number),
{
    number.as_f64().map(|value| value as i32)
}

/// A value of an HTTP header.
#[verifier::external_type_specification]
#[verifier::external_body]
pub struct ExHeaderValue(reqwest::header::HeaderValue);

/// The headers of an HTTP message.
#[verifier::external_type_specification]
#[verifier::external_body]
#[verifier::reject_recursive_types(T)]
pub struct ExHeaderMap<T>(reqwest::header::HeaderMap<T>);

/// The header fields by name in lower case, each with its first value where
/// that is text.
pub uninterp spec fn header_fields(headers: reqwest::header::HeaderMap<reqwest::header::HeaderValue>) -> Map<Seq<char>, Option<Seq<char>>>;

/// `HeaderMap::get` and `HeaderValue::to_str`: the first value of the field
/// `name`, `Some(None)` where it holds something else than visible ASCII.
/// Fields are held under their names in lower case.
#[verifier::external_body]
pub(crate) fn header_text(
    headers: &reqwest::header::HeaderMap<reqwest::header::HeaderValue>,
    name: &str,
) -> (value: Option<Option<String>>)
    requires
        forall|i: int| 0 <= i < name@.len() ==> !('A' <= #[trigger] name@[i] && name@[i] <= 'Z'),
    ensures
        match value {
            Some(value) => header_fields(*headers).dom().contains(name@) && match value {
                Some(value) => header_fields(*headers)[name@] == Some(value@),
                None => header_fields(*headers)[name@] is None,
            },
            None => !header_fields(*headers).dom().contains(name@),
        },
{
    headers.get(name).map(|value| value.to_str().ok().map(str::to_string))
}

/// A text in lower case, by Unicode's rules.
pub uninterp spec fn lowercase(text: Seq<char>) -> Seq<char>;

/// `str::to_lowercase`.
#[verifier::external_body]
pub(crate) fn to_lowercase(text: &str) -> (lowered: String)
    ensures
        lowered@ == lowercase(text@),
{
    text.to_lowercase()
}

/// Whether a character is a letter or a number, by Unicode's rules.
pub uninterp spec fn alphanumeric(ch: char) -> bool;

/// `char::is_alphanumeric`.
#[verifier::external_body]
pub(crate) fn is_alphanumeric(ch: char) -> (yes: bool)
    ensures
        yes == alphanumeric(ch),
{
    ch.is_alphanumeric()
}

/// A character in lower case, by Unicode's rules, which may take several
/// characters.
pub uninterp spec fn lowercase_char(ch: char) -> Seq<char>;

/// `char::to_lowercase`.
#[verifier::external_body]
pub(crate) fn char_to_lowercase(ch: char) -> (lowered: String)
    ensures
        lowered@ == lowercase_char(ch),
{
    ch.to_lowercase().to_string()
}

/// How `{:?}` writes a string: in quotes, escaped.
pub uninterp spec fn debug_rendering(text: Seq<char>) -> Seq<char>;

/// `str`'s `Debug` rendering. A line feed in it is escaped, so that the
/// rendering is a single line.
#[verifier::external_body]
pub(crate) fn debug_text(text: &str) -> (quoted: String)
    ensures
        quoted@ == debug_rendering(text@),
        forall|i: int| 0 <= i < quoted@.len() ==> #[trigger] quoted@[i] != '\n',
{
    format!("{:?}", text)
}

/// What `String::from_utf8_lossy` makes of bytes.
pub uninterp spec fn utf8_lossy(bytes: Seq<u8>) -> Seq<char>;

/// `String::from_utf8_lossy`: the bytes decoded as UTF-8, with a replacement
/// character for what is not. It gives the text back that was encoded.
#[verifier::external_body]
pub(crate) fn decode_lossy(bytes: &Vec<u8>) -> (text: String)
    ensures
        text@ == utf8_lossy(bytes@),
        vstd::utf8::valid_utf8(bytes@) ==> text@ == vstd::utf8::decode_utf8(bytes@),
{
    String::from_utf8_lossy(bytes).into_owned()
}

/// Whether a character is a lower-case hexadecimal digit.
pub open spec fn is_hex(ch: char) -> bool {
    '0' <= ch <= '9' || 'a' <= ch <= 'f'
}

/// Whether a text is a random UUID in its hyphenated form: lower-case
/// hexadecimal digits in groups of eight, four, four, four and twelve, of which
/// two tell the version and the variant.
pub open spec fn is_uuid(id: Seq<char>) -> bool {
    &&& id.len() == 36
    &&& forall|i: int|
        0 <= i < 36 ==> if i == 8 || i == 13 || i == 18 || i == 23 {
            #[trigger] id[i] == '-'
        } else {
            is_hex(id[i])
        }
    &&& id[14] == '4'
    &&& id[19] == '8' || id[19] == '9' || id[19] == 'a' || id[19] == 'b'
}

/// `uuid::Uuid::new_v4`, written out by `Uuid`'s `Display`: an id in the
/// hyphenated form. Which one is left to chance.
#[verifier::external_body]
pub(crate) fn fresh_uuid() -> (id: String)
    ensures
        is_uuid(id@),
{
    uuid::Uuid::new_v4().to_string()
}

/// Whether a character beyond ASCII is a decimal digit to `regex`'s `\d`.
pub uninterp spec fn unicode_digit(ch: char) -> bool;

/// `regex::Regex::captures_iter`: what the first group of each match of a
/// pattern holds, from left to right, matches not overlapping. For the pattern
/// `\[(\d+)\]`, which is valid, that is the digits between brackets.
#[verifier::external_body]
pub(crate) fn first_groups(pattern: &str, text: &str) -> (groups: Vec<String>)
    requires
        pattern@ == citations::MARKER@,
    ensures
        text::texts(groups@) == citations::markers(text@),
        forall|i: int, k: int|
            0 <= i < groups@.len() && 0 <= k < groups@[i]@.len() ==> text::is_digit(
                #[trigger] groups@[i]@[k],
            ) || unicode_digit(groups@[i]@[k]),
{
    match regex::Regex::new(pattern) {
        Ok(regex) => regex.captures_iter(text).map(|found| found[1].to_string()).collect(),
        Err(_) => Vec::new(),
    }
}

/// `regex::Regex::replace_all` with nothing: the text without the matches of a
/// pattern, which are found from left to right and do not overlap. For the
/// pattern ` ?\[\d+\]`, which is valid, a match is a marker with the space
/// before it where there is one.
#[verifier::external_body]
pub(crate) fn without_matches(pattern: &str, text: &str) -> (kept: String)
    requires
        pattern@ == citations::SPACED_MARKER@,
    ensures
        kept@ == citations::without_markers(text@),
{
    match regex::Regex::new(pattern) {
        Ok(regex) => regex.replace_all(text, "").into_owned(),
        Err(_) => text.to_string(),
    }
}

} // verus!
