//! What holds between the conversions.

use vstd::prelude::*;
use crate::codec::{
    binary_to_hex, binary_to_text, hex_to_binary, hex_to_text, text_to_binary, text_to_hex,
};
use crate::error::ConvertError;
use crate::line::{
    binary_line, binary_line_bytes, binary_line_count, binary_line_token, hex_line,
    hex_line_bytes, hex_line_count, hex_line_token, is_binary_line, is_hex_line,
    is_upper_hex_line, lemma_binary_line_canonical, lemma_binary_line_round_trip,
    lemma_hex_line_canonical, lemma_hex_line_round_trip,
};
use crate::text::{
    bytes_text, is_single_byte, is_single_byte_text, lemma_code_point_range, text_bytes,
};
use crate::token::{is_binary_token, is_upper_hex_token};

verus! {

/// A single-byte text is the text of its bytes.
pub proof fn lemma_text_bytes_round_trip(text: Seq<char>)
    requires
        is_single_byte_text(text),
    ensures
        bytes_text(text_bytes(text)) == text,
{
    assert forall|i: int| 0 <= i < text.len() implies bytes_text(text_bytes(text))[i]
        == text[i] by {
        let c = text[i];
        assert(is_single_byte(c));
        lemma_code_point_range(c);
        assert(is_single_byte(c));
        lemma_code_point_range(c);
    }
    assert(bytes_text(text_bytes(text)) =~= text);
}

/// The text of any bytes is a single-byte text, and its bytes are those
/// bytes.
pub proof fn lemma_bytes_text_round_trip(bytes: Seq<u8>)
    ensures
        is_single_byte_text(bytes_text(bytes)),
        text_bytes(bytes_text(bytes)) == bytes,
{
    assert(text_bytes(bytes_text(bytes)) =~= bytes);
}

/// Converting a single-byte text to binary succeeds, and converting the
/// line back gives the text.
pub proof fn law_text_binary_round_trip(text: Seq<char>)
    requires
        is_single_byte_text(text),
    ensures
        text_to_binary(text) matches Ok(line) && binary_to_text(line) == Ok::<
            Seq<char>,
            ConvertError,
        >(text),
{
    lemma_binary_line_round_trip(text_bytes(text));
    lemma_text_bytes_round_trip(text);
}

/// Converting a single-byte text to hexadecimal succeeds, and converting
/// the line back gives the text.
pub proof fn law_text_hex_round_trip(text: Seq<char>)
    requires
        is_single_byte_text(text),
    ensures
        text_to_hex(text) matches Ok(line) && hex_to_text(line) == Ok::<Seq<char>, ConvertError>(
            text,
        ),
{
    lemma_hex_line_round_trip(text_bytes(text));
    lemma_text_bytes_round_trip(text);
}

/// Converting a binary line to hexadecimal succeeds, and converting the
/// result back gives the line.
pub proof fn law_binary_hex_round_trip(line: Seq<char>)
    requires
        is_binary_line(line),
    ensures
        binary_to_hex(line) matches Ok(hex) && hex_to_binary(hex) == Ok::<
            Seq<char>,
            ConvertError,
        >(line),
{
    lemma_hex_line_round_trip(binary_line_bytes(line));
    lemma_binary_line_canonical(line);
}

/// Converting a hexadecimal line in upper case to binary succeeds, and
/// converting the result back gives the line.
pub proof fn law_hex_binary_round_trip(line: Seq<char>)
    requires
        is_upper_hex_line(line),
    ensures
        hex_to_binary(line) matches Ok(binary) && binary_to_hex(binary) == Ok::<
            Seq<char>,
            ConvertError,
        >(line),
{
    lemma_binary_line_round_trip(hex_line_bytes(line));
    lemma_hex_line_canonical(line);
}

/// Converting any hexadecimal line to binary and back gives a line in upper
/// case that stands for the same bytes.
pub proof fn law_hex_binary_normalises(line: Seq<char>)
    requires
        is_hex_line(line),
    ensures
        hex_to_binary(line) matches Ok(binary) && binary_to_hex(binary) matches Ok(upper)
            && is_upper_hex_line(upper) && hex_line_bytes(upper) == hex_line_bytes(line),
{
    lemma_binary_line_round_trip(hex_line_bytes(line));
    lemma_hex_line_round_trip(hex_line_bytes(line));
}

/// The binary lines are exactly the lines made of the binary tokens of some
/// bytes, joined by single spaces.
pub proof fn law_binary_lines_are_joined_tokens(line: Seq<char>)
    ensures
        is_binary_line(line) <==> exists|bytes: Seq<u8>| line == #[trigger] binary_line(bytes),
{
    if is_binary_line(line) {
        lemma_binary_line_canonical(line);
        assert(line == binary_line(binary_line_bytes(line)));
    }
    if exists|bytes: Seq<u8>| line == #[trigger] binary_line(bytes) {
        let bytes = choose|bytes: Seq<u8>| line == #[trigger] binary_line(bytes);
        lemma_binary_line_round_trip(bytes);
    }
}

/// The hexadecimal lines in upper case are exactly the lines made of the
/// hexadecimal tokens of some bytes, joined by single spaces.
pub proof fn law_upper_hex_lines_are_joined_tokens(line: Seq<char>)
    ensures
        is_upper_hex_line(line) <==> exists|bytes: Seq<u8>| line == #[trigger] hex_line(bytes),
{
    if is_upper_hex_line(line) {
        lemma_hex_line_canonical(line);
        assert(line == hex_line(hex_line_bytes(line)));
    }
    if exists|bytes: Seq<u8>| line == #[trigger] hex_line(bytes) {
        let bytes = choose|bytes: Seq<u8>| line == #[trigger] hex_line(bytes);
        lemma_hex_line_round_trip(bytes);
    }
}

/// Every token of the binary line of any bytes is eight binary digits, and
/// every token of their hexadecimal line is two upper-case hexadecimal
/// digits.
pub proof fn law_token_format(bytes: Seq<u8>)
    ensures
        is_binary_line(binary_line(bytes)),
        is_upper_hex_line(hex_line(bytes)),
        forall|k: int|
            0 <= k < binary_line_count(binary_line(bytes)) ==> is_binary_token(
                #[trigger] binary_line_token(binary_line(bytes), k),
            ),
        forall|k: int|
            0 <= k < hex_line_count(hex_line(bytes)) ==> is_upper_hex_token(
                #[trigger] hex_line_token(hex_line(bytes), k),
            ),
{
    lemma_binary_line_round_trip(bytes);
    lemma_hex_line_round_trip(bytes);
}

/// Each conversion gives the empty string for the empty string.
pub proof fn law_empty_input()
    ensures
        text_to_binary(Seq::empty()) == Ok::<Seq<char>, ConvertError>(Seq::empty()),
        binary_to_text(Seq::empty()) == Ok::<Seq<char>, ConvertError>(Seq::empty()),
        text_to_hex(Seq::empty()) == Ok::<Seq<char>, ConvertError>(Seq::empty()),
        hex_to_text(Seq::empty()) == Ok::<Seq<char>, ConvertError>(Seq::empty()),
        binary_to_hex(Seq::empty()) == Ok::<Seq<char>, ConvertError>(Seq::empty()),
        hex_to_binary(Seq::empty()) == Ok::<Seq<char>, ConvertError>(Seq::empty()),
{
    let none = Seq::<char>::empty();
    assert(text_bytes(none) =~= Seq::<u8>::empty());
    assert(binary_line_bytes(none) =~= Seq::<u8>::empty());
    assert(hex_line_bytes(none) =~= Seq::<u8>::empty());
    assert(bytes_text(Seq::<u8>::empty()) =~= none);
    assert(binary_line(Seq::<u8>::empty()) =~= none);
    assert(hex_line(Seq::<u8>::empty()) =~= none);
}

} // verus!
