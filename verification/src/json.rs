//! Texts and lists of texts in JSON.

use crate::text::{joined, texts};
use vstd::prelude::*;

verus! {

/// A number below sixteen as a digit.
pub open spec fn hex_digit(n: int) -> char {
    "0123456789abcdef"@[n]
}

/// A character of a text in JSON: a quotation mark and a backslash stand behind
/// a backslash, and a control character is a letter or a number behind one.
pub open spec fn json_char(c: char) -> Seq<char> {
    if c == '"' {
        seq!['\\', '"']
    } else if c == '\\' {
        seq!['\\', '\\']
    } else if c == '\u{8}' {
        seq!['\\', 'b']
    } else if c == '\t' {
        seq!['\\', 't']
    } else if c == '\n' {
        seq!['\\', 'n']
    } else if c == '\u{c}' {
        seq!['\\', 'f']
    } else if c == '\r' {
        seq!['\\', 'r']
    } else if (c as int) < 32 {
        seq!['\\', 'u', '0', '0', hex_digit(c as int / 16), hex_digit(c as int % 16)]
    } else {
        seq![c]
    }
}

/// A text in JSON: its characters between quotation marks.
pub open spec fn json_text(text: Seq<char>) -> Seq<char> {
    seq!['"'] + text.map_values(|c: char| json_char(c)).flatten() + seq!['"']
}

/// A list of texts in JSON: the texts between square brackets, with commas
/// between them.
pub open spec fn json_list_text(list: Seq<Seq<char>>) -> Seq<char> {
    seq!['['] + joined(list.map_values(|text: Seq<char>| json_text(text)), seq![',']) + seq![']']
}

/// The list of texts that `serde_json::from_str` reads in a text, where it
/// reads one.
pub uninterp spec fn json_list_read(text: Seq<char>) -> Option<Seq<Seq<char>>>;

/// `serde_json::to_string`, of a text.
///
/// Claimed: a text is always written, between quotation marks, and what is
/// written for each of its characters is what the table of escapes says.
#[verifier::external_body]
pub(crate) fn write_json_text(text: &str) -> (r: String)
    ensures
        r@ == json_text(text@),
{
    serde_json::to_string(text).unwrap_or_default()
}

/// `serde_json::to_string`, of a list of texts.
///
/// Claimed: a list is always written, each text as it is written alone, with
/// commas between them and no white space, and `serde_json::from_str` reads the
/// same list back.
#[verifier::external_body]
pub(crate) fn write_json_list(list: &Vec<String>) -> (r: String)
    ensures
        r@ == json_list_text(texts(list@)),
        json_list_read(r@) == Some(texts(list@)),
{
    serde_json::to_string(list).unwrap_or_default()
}

/// `serde_json::from_str`, of a list of texts.
///
/// Claimed: whether a list is read, and which, is a function of the text.
#[verifier::external_body]
pub(crate) fn read_json_list(text: &str) -> (r: Option<Vec<String>>)
    ensures
        r is Some == json_list_read(text@) is Some,
        r is Some ==> texts(r->0@) == json_list_read(text@)->0,
{
    match serde_json::from_str::<Vec<String>>(text) {
        Ok(list) => Some(list),
        Err(_) => None,
    }
}

} // verus!
