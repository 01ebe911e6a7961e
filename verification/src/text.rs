//! Text as a sequence of single-byte characters.
//!
//! A text is a string whose characters all have a code point of at most 255.
//! Such a character stands for the byte with the same number, and every byte
//! stands for exactly one such character.

use vstd::prelude::*;
use crate::error::ConvertError;

verus! {

/// `String::push` of std: it appends the character `ch` to the end of the
/// string and leaves what the string held before in place.
pub assume_specification[ String::push ](s: &mut String, ch: char)
    ensures
        final(s)@ == old(s)@.push(ch),
;

/// Whether the code point of `c` fits in one byte.
pub open spec fn is_single_byte(c: char) -> bool {
    c as int <= 0xFF
}

/// No character has a code point below zero or above `0x10FFFF`.
pub proof fn lemma_code_point_range(c: char)
    ensures
        0 <= c as int <= 0x10FFFF,
{
}

/// The code point of `c`.
pub fn code_point(c: char) -> (code: u32)
    ensures
        code == c as int,
{
    c as u32
}

/// Whether every character of `t` fits in one byte.
pub open spec fn is_single_byte_text(t: Seq<char>) -> bool {
    forall|i: int| 0 <= i < t.len() ==> is_single_byte(#[trigger] t[i])
}

/// The bytes that the characters of a single-byte text stand for.
pub open spec fn text_bytes(t: Seq<char>) -> Seq<u8> {
    Seq::new(t.len(), |i: int| t[i] as u8)
}

/// The text whose characters have the code points `bytes`.
pub open spec fn bytes_text(bytes: Seq<u8>) -> Seq<char> {
    Seq::new(bytes.len(), |i: int| bytes[i] as char)
}

/// The characters of `s`, in order.
pub fn chars_of(s: &str) -> (v: Vec<char>)
    ensures
        v@ == s@,
{
    let mut v: Vec<char> = Vec::new();
    for c in it: s.chars()
        invariant
            it.seq() == s@,
            v@ == it.seq().take(it.index()),
    {
        v.push(c);
    }
    v
}

/// The bytes of a text, or `InvalidCharacter` where one of its characters
/// does not fit in a byte.
pub fn text_to_bytes(text: &str) -> (r: Result<Vec<u8>, ConvertError>)
    ensures
        match r {
            Ok(bytes) => is_single_byte_text(text@) && bytes@ == text_bytes(text@),
            Err(e) => !is_single_byte_text(text@) && e == ConvertError::InvalidCharacter,
        },
{
    let chars = chars_of(text);
    let mut bytes: Vec<u8> = Vec::new();
    let mut i: usize = 0;
    while i < chars.len()
        invariant
            chars@ == text@,
            i <= chars.len(),
            bytes@ == text_bytes(text@.take(i as int)),
            is_single_byte_text(text@.take(i as int)),
        decreases chars.len() - i,
    {
        let code: u32 = code_point(chars[i]);
        if code > 0xFF {
            assert(!is_single_byte(text@[i as int]));
            return Err(ConvertError::InvalidCharacter);
        }
        bytes.push(code as u8);
        proof {
            let prev = text@.take(i as int);
            let next = text@.take(i + 1);
            assert(forall|j: int| 0 <= j < prev.len() ==> prev[j] == next[j]);
            assert(bytes@ =~= text_bytes(next));
            assert forall|j: int| 0 <= j < next.len() implies is_single_byte(#[trigger] next[j]) by {
                if j < i {
                    assert(next[j] == prev[j]);
                }
            }
        }
        i += 1;
    }
    assert(text@.take(i as int) =~= text@);
    Ok(bytes)
}

/// The text that `bytes` stand for: one character for each byte.
pub fn bytes_to_text(bytes: &[u8]) -> (text: String)
    ensures
        text@ == bytes_text(bytes@),
{
    let mut text = String::new();
    let mut i: usize = 0;
    while i < bytes.len()
        invariant
            i <= bytes.len(),
            text@ == bytes_text(bytes@.take(i as int)),
        decreases bytes.len() - i,
    {
        text.push(bytes[i] as char);
        assert(text@ =~= bytes_text(bytes@.take(i + 1)));
        i += 1;
    }
    assert(bytes@.take(i as int) =~= bytes@);
    text
}

} // verus!
