//! The six conversions between text, binary lines and hexadecimal lines.
//!
//! Each conversion is stated as a function on character sequences, and the
//! executable function of the same purpose returns what that function gives
//! for the characters of its input.

use vstd::prelude::*;
use crate::error::ConvertError;
use crate::line::{
    binary_line, binary_line_bytes, decode_binary, decode_hex, encode_binary, encode_hex,
    hex_line, hex_line_bytes, is_binary_line, is_hex_line, is_upper_hex_line,
    lemma_binary_line_layout, lemma_binary_line_round_trip, lemma_hex_line_layout,
    lemma_hex_line_round_trip,
};
use crate::text::{bytes_text, bytes_to_text, is_single_byte_text, text_bytes, text_to_bytes};

verus! {

/// The binary line of a single-byte text.
pub open spec fn text_to_binary(text: Seq<char>) -> Result<Seq<char>, ConvertError> {
    if is_single_byte_text(text) {
        Ok(binary_line(text_bytes(text)))
    } else {
        Err(ConvertError::InvalidCharacter)
    }
}

/// The text that a binary line stands for.
pub open spec fn binary_to_text(line: Seq<char>) -> Result<Seq<char>, ConvertError> {
    if is_binary_line(line) {
        Ok(bytes_text(binary_line_bytes(line)))
    } else {
        Err(ConvertError::MalformedToken)
    }
}

/// The hexadecimal line of a single-byte text.
pub open spec fn text_to_hex(text: Seq<char>) -> Result<Seq<char>, ConvertError> {
    if is_single_byte_text(text) {
        Ok(hex_line(text_bytes(text)))
    } else {
        Err(ConvertError::InvalidCharacter)
    }
}

/// The text that a hexadecimal line stands for.
pub open spec fn hex_to_text(line: Seq<char>) -> Result<Seq<char>, ConvertError> {
    if is_hex_line(line) {
        Ok(bytes_text(hex_line_bytes(line)))
    } else {
        Err(ConvertError::MalformedToken)
    }
}

/// The hexadecimal line for the bytes of a binary line.
pub open spec fn binary_to_hex(line: Seq<char>) -> Result<Seq<char>, ConvertError> {
    if is_binary_line(line) {
        Ok(hex_line(binary_line_bytes(line)))
    } else {
        Err(ConvertError::MalformedToken)
    }
}

/// The binary line for the bytes of a hexadecimal line.
pub open spec fn hex_to_binary(line: Seq<char>) -> Result<Seq<char>, ConvertError> {
    if is_hex_line(line) {
        Ok(binary_line(hex_line_bytes(line)))
    } else {
        Err(ConvertError::MalformedToken)
    }
}

/// What an outcome holds, with the string taken by its characters.
pub open spec fn outcome_view(r: Result<String, ConvertError>) -> Result<Seq<char>, ConvertError> {
    match r {
        Ok(s) => Ok(s@),
        Err(e) => Err(e),
    }
}

/// Writes each character of `text` as eight binary digits, most significant
/// bit first, with one space between neighbours. Fails with
/// `InvalidCharacter` where a character does not fit in one byte.
pub fn convert_text_to_binary(text: &str) -> (r: Result<String, ConvertError>)
    ensures
        outcome_view(r) == text_to_binary(text@),
        r matches Ok(line) ==> is_binary_line(line@),
        text@.len() == 0 ==> (r matches Ok(line) && line@.len() == 0),
{
    match text_to_bytes(text) {
        Ok(bytes) => {
            proof {
                lemma_binary_line_round_trip(bytes@);
                lemma_binary_line_layout(bytes@);
            }
            Ok(encode_binary(bytes.as_slice()))
        },
        Err(e) => Err(e),
    }
}

/// Reads a binary line and gives the text with one character for each
/// token. Fails with `MalformedToken` where `binary` is not a binary line.
pub fn convert_binary_to_text(binary: &str) -> (r: Result<String, ConvertError>)
    ensures
        outcome_view(r) == binary_to_text(binary@),
        r matches Ok(text) ==> is_single_byte_text(text@),
        binary@.len() == 0 ==> (r matches Ok(text) && text@.len() == 0),
{
    match decode_binary(binary) {
        Ok(bytes) => Ok(bytes_to_text(bytes.as_slice())),
        Err(e) => Err(e),
    }
}

/// Writes each character of `text` as two upper-case hexadecimal digits,
/// with one space between neighbours. Fails with `InvalidCharacter` where a
/// character does not fit in one byte.
pub fn convert_text_to_hex(text: &str) -> (r: Result<String, ConvertError>)
    ensures
        outcome_view(r) == text_to_hex(text@),
        r matches Ok(line) ==> is_upper_hex_line(line@),
        text@.len() == 0 ==> (r matches Ok(line) && line@.len() == 0),
{
    match text_to_bytes(text) {
        Ok(bytes) => {
            proof {
                lemma_hex_line_round_trip(bytes@);
                lemma_hex_line_layout(bytes@);
            }
            Ok(encode_hex(bytes.as_slice()))
        },
        Err(e) => Err(e),
    }
}

/// Reads a hexadecimal line, of either case, and gives the text with one
/// character for each token. Fails with `MalformedToken` where `hex` is not
/// a hexadecimal line.
pub fn convert_hex_to_text(hex: &str) -> (r: Result<String, ConvertError>)
    ensures
        outcome_view(r) == hex_to_text(hex@),
        r matches Ok(text) ==> is_single_byte_text(text@),
        hex@.len() == 0 ==> (r matches Ok(text) && text@.len() == 0),
{
    match decode_hex(hex) {
        Ok(bytes) => Ok(bytes_to_text(bytes.as_slice())),
        Err(e) => Err(e),
    }
}

/// Reads a binary line and writes its bytes as a hexadecimal line in upper
/// case. Fails with `MalformedToken` where `binary` is not a binary line.
pub fn convert_binary_to_hex(binary: &str) -> (r: Result<String, ConvertError>)
    ensures
        outcome_view(r) == binary_to_hex(binary@),
        r matches Ok(line) ==> is_upper_hex_line(line@),
        binary@.len() == 0 ==> (r matches Ok(line) && line@.len() == 0),
{
    match decode_binary(binary) {
        Ok(bytes) => {
            proof {
                lemma_hex_line_round_trip(bytes@);
                lemma_hex_line_layout(bytes@);
            }
            Ok(encode_hex(bytes.as_slice()))
        },
        Err(e) => Err(e),
    }
}

/// Reads a hexadecimal line, of either case, and writes its bytes as a
/// binary line. Fails with `MalformedToken` where `hex` is not a hexadecimal
/// line.
pub fn convert_hex_to_binary(hex: &str) -> (r: Result<String, ConvertError>)
    ensures
        outcome_view(r) == hex_to_binary(hex@),
        r matches Ok(line) ==> is_binary_line(line@),
        hex@.len() == 0 ==> (r matches Ok(line) && line@.len() == 0),
{
    match decode_hex(hex) {
        Ok(bytes) => {
            proof {
                lemma_binary_line_round_trip(bytes@);
                lemma_binary_line_layout(bytes@);
            }
            Ok(encode_binary(bytes.as_slice()))
        },
        Err(e) => Err(e),
    }
}

} // verus!
