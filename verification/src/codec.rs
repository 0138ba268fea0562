//! Text encodings that the library takes from outside code: UTF-8 decoding, JSON string
//! literals and standard base64.

use base64::Engine;
use vstd::prelude::*;
use vstd::utf8::{decode_utf8, valid_utf8};

verus! {

/// An error of `serde_json`.
#[verifier::external_type_specification]
#[verifier::external_body]
pub struct ExJsonError(serde_json::Error);

/// The lowercase hexadecimal digit of `n`, for `0 <= n < 16`.
pub open spec fn lower_hex_digit(n: int) -> char {
    if n < 10 {
        (('0' as int) + n) as char
    } else {
        (('a' as int) + n - 10) as char
    }
}

/// How a JSON string literal writes one character: a quote, a backslash and the control
/// characters backspace, tab, line feed, form feed and carriage return take a two-character
/// escape; any other character below U+0020 becomes `\u00` and two lowercase hexadecimal
/// digits; every other character stands as it is.
pub open spec fn json_escaped_char(c: char) -> Seq<char> {
    let code = c as int;
    if c == '"' {
        seq!['\\', '"']
    } else if c == '\\' {
        seq!['\\', '\\']
    } else if code == 8 {
        seq!['\\', 'b']
    } else if code == 9 {
        seq!['\\', 't']
    } else if code == 10 {
        seq!['\\', 'n']
    } else if code == 12 {
        seq!['\\', 'f']
    } else if code == 13 {
        seq!['\\', 'r']
    } else if code < 32 {
        seq!['\\', 'u', '0', '0', lower_hex_digit(code / 16), lower_hex_digit(code % 16)]
    } else {
        seq![c]
    }
}

/// The characters of `text`, each escaped as a JSON string literal writes it.
pub open spec fn json_escaped(text: Seq<char>) -> Seq<char>
    decreases text.len(),
{
    if text.len() == 0 {
        Seq::empty()
    } else {
        json_escaped(text.drop_last()) + json_escaped_char(text.last())
    }
}

/// The JSON string literal, quotes included, that `serde_json` writes for `text`.
pub open spec fn json_string_literal(text: Seq<char>) -> Seq<char> {
    seq!['"'] + json_escaped(text) + seq!['"']
}

/// The character of the standard base64 alphabet for the six-bit value `n`.
pub open spec fn base64_symbol(n: int) -> char {
    if n < 26 {
        (('A' as int) + n) as char
    } else if n < 52 {
        (('a' as int) + n - 26) as char
    } else if n < 62 {
        (('0' as int) + n - 52) as char
    } else if n == 62 {
        '+'
    } else {
        '/'
    }
}

/// The standard base64 encoding, with padding, of `bytes`: each group of three bytes
/// becomes four characters, and a last group of one or two bytes is padded with `=` to four.
pub open spec fn base64_standard(bytes: Seq<u8>) -> Seq<char>
    decreases bytes.len(),
{
    if bytes.len() == 0 {
        Seq::empty()
    } else if bytes.len() == 1 {
        let b0 = bytes[0] as int;
        seq![base64_symbol(b0 / 4), base64_symbol((b0 % 4) * 16), '=', '=']
    } else if bytes.len() == 2 {
        let b0 = bytes[0] as int;
        let b1 = bytes[1] as int;
        seq![
            base64_symbol(b0 / 4),
            base64_symbol((b0 % 4) * 16 + b1 / 16),
            base64_symbol((b1 % 16) * 4),
            '=',
        ]
    } else {
        let b0 = bytes[0] as int;
        let b1 = bytes[1] as int;
        let b2 = bytes[2] as int;
        seq![
            base64_symbol(b0 / 4),
            base64_symbol((b0 % 4) * 16 + b1 / 16),
            base64_symbol((b1 % 16) * 4 + b2 / 64),
            base64_symbol(b2 % 64),
        ] + base64_standard(bytes.subrange(3, bytes.len() as int))
    }
}

/// Calls `serde_json::to_string` on a string. Claims that it succeeds and that the result
/// is the text in quotes, escaped as `json_string_literal` states it. Its source writes
/// a string into a `Vec<u8>`, which cannot fail, and the only error it reports is one of
/// that writer.
#[verifier::external_body]
pub(crate) fn json_quote(text: &str) -> (result: Result<String, serde_json::Error>)
    ensures
        result is Ok,
        result matches Ok(quoted) ==> quoted@ == json_string_literal(text@),
{
    serde_json::to_string(text)
}

/// Calls `Engine::encode` of base64's `STANDARD` engine. Claims that the result is the
/// standard padded base64 text of the bytes, as `base64_standard` states it. The engine panics
/// when the encoded length overflows `usize`, which the bound on the input rules out.
#[verifier::external_body]
pub(crate) fn base64_encode(bytes: &[u8]) -> (result: String)
    requires
        bytes@.len() <= usize::MAX / 2,
    ensures
        result@ == base64_standard(bytes@),
{
    base64::engine::general_purpose::STANDARD.encode(bytes)
}

/// Calls `String::from_utf8`. Claims what its documentation says: it succeeds exactly on
/// valid UTF-8, and the string then holds the decoded characters.
#[verifier::external_body]
pub(crate) fn utf8_decode(bytes: Vec<u8>) -> (result: Option<String>)
    ensures
        match result {
            Some(text) => valid_utf8(bytes@) && text@ == decode_utf8(bytes@),
            None => !valid_utf8(bytes@),
        },
{
    String::from_utf8(bytes).ok()
}

/// The text that `String::from_utf8_lossy` decodes from `bytes`, invalid sequences replaced
/// by U+FFFD.
pub uninterp spec fn lossy_utf8(bytes: Seq<u8>) -> Seq<char>;

/// Calls `String::from_utf8_lossy`. Claims that the result is a function of the bytes and,
/// as its documentation says, that valid UTF-8 decodes as `String::from_utf8` decodes it.
#[verifier::external_body]
pub(crate) fn utf8_lossy(bytes: &[u8]) -> (result: String)
    ensures
        result@ == lossy_utf8(bytes@),
        valid_utf8(bytes@) ==> result@ == decode_utf8(bytes@),
{
    String::from_utf8_lossy(bytes).into_owned()
}

} // verus!
