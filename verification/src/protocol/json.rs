//! What the protocol layer asks of `serde_json`: to read a document, to look
//! up the strings in it, and to write a string as a JSON string.

use super::signed_hex::hex_char;
use vstd::prelude::*;

verus! {

/// `serde_json::Value`, a JSON document. Nothing of it is seen here but by
/// `string_at`.
#[verifier::external_type_specification]
#[verifier::external_body]
pub struct ExValue(serde_json::Value);

/// The strings that a JSON document holds, each under the JSON pointer that
/// leads to it. A pointer that leads to nothing, or to a value that is no
/// string, is not among the keys.
pub uninterp spec fn json_strings(document: serde_json::Value) -> Map<Seq<char>, Seq<char>>;

/// The strings of the JSON document that the bytes spell, or nothing where
/// the bytes are no JSON document.
pub uninterp spec fn json_document(bytes: Seq<u8>) -> Option<Map<Seq<char>, Seq<char>>>;

/// What stands for a character inside a JSON string: an escape for the
/// quote, the backslash and the control characters, and the character itself
/// otherwise.
pub open spec fn json_escape(c: char) -> Seq<char> {
    if c == '"' {
        seq!['\\', '"']
    } else if c == '\\' {
        seq!['\\', '\\']
    } else if c == '\u{8}' {
        seq!['\\', 'b']
    } else if c == '\t' {
        seq!['\\', 't']
    } else if c == '\n' {
        seq!['\\', 'n']
    } else if c == '\u{c}' {
        seq!['\\', 'f']
    } else if c == '\r' {
        seq!['\\', 'r']
    } else if '\u{0}' <= c <= '\u{1f}' {
        seq!['\\', 'u', '0', '0', hex_char(c as nat / 16), hex_char(c as nat % 16)]
    } else {
        seq![c]
    }
}

/// A text with every character as it stands inside a JSON string.
pub open spec fn json_escaped(text: Seq<char>) -> Seq<char>
    decreases text.len(),
{
    if text.len() == 0 {
        Seq::empty()
    } else {
        json_escaped(text.drop_last()) + json_escape(text.last())
    }
}

/// The JSON string that stands for a text: the escaped text in quotes.
pub open spec fn json_quoted(text: Seq<char>) -> Seq<char> {
    seq!['"'] + json_escaped(text) + seq!['"']
}

/// `serde_json::from_slice` for a `Value`: the bytes are read as one JSON
/// document, whose strings are those that `json_document` names; there is
/// none exactly where `from_slice` fails, which is where `json_document`
/// names nothing.
#[verifier::external_body]
pub(crate) fn parse_document(bytes: &[u8]) -> (r: Option<serde_json::Value>)
    ensures
        match r {
            Some(document) => json_document(bytes@) == Some(json_strings(document)),
            None => json_document(bytes@) is None,
        },
{
    serde_json::from_slice(bytes).ok()
}

/// `Value::pointer` and, on what it finds, `Value::as_str`: the string that
/// the document holds under a JSON pointer, if it holds one there.
#[verifier::external_body]
pub(crate) fn string_at(document: &serde_json::Value, pointer: &str) -> (r: Option<String>)
    ensures
        match r {
            Some(text) => json_strings(*document).contains_key(pointer@) && text@ == json_strings(
                *document,
            )[pointer@],
            None => !json_strings(*document).contains_key(pointer@),
        },
{
    document.pointer(pointer).and_then(|value| value.as_str()).map(|text| text.to_owned())
}

/// `serde_json::to_string` for a string slice: the text in quotes, with the
/// quote, the backslash and the control characters escaped. The serializer
/// writes into memory, and its only errors are those of its writer, so this
/// does not fail.
#[verifier::external_body]
pub(crate) fn quote(text: &str) -> (r: Option<String>)
    ensures
        r is Some,
        r->0@ == json_quoted(text@),
{
    serde_json::to_string(text).ok()
}

} // verus!
