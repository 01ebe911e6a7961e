//! Tokens: the fixed-width digit groups that stand for one byte.
//!
//! A binary token is eight binary digits, most significant bit first. A
//! hexadecimal token is two hexadecimal digits, high nibble first; it is
//! written in upper case and read in either case.

use vstd::prelude::*;

verus! {

/// The weight of the place `i` of a binary token: 128 for the first digit,
/// 1 for the last.
pub open spec fn place_weight(i: int) -> int {
    if i == 0 {
        128
    } else if i == 1 {
        64
    } else if i == 2 {
        32
    } else if i == 3 {
        16
    } else if i == 4 {
        8
    } else if i == 5 {
        4
    } else if i == 6 {
        2
    } else if i == 7 {
        1
    } else {
        0
    }
}

/// The binary digit of `b` at the place of the given weight.
pub open spec fn bit_char(b: u8, weight: int) -> char {
    if (b as int / weight) % 2 == 1 {
        '1'
    } else {
        '0'
    }
}

/// The eight binary digits of `b`, most significant first.
pub open spec fn binary_token(b: u8) -> Seq<char> {
    Seq::new(8, |i: int| bit_char(b, place_weight(i)))
}

/// Whether `c` is a binary digit.
pub open spec fn is_binary_digit(c: char) -> bool {
    c == '0' || c == '1'
}

/// The number that a binary digit stands for.
pub open spec fn binary_digit_value(c: char) -> int {
    if c == '1' {
        1
    } else {
        0
    }
}

/// Whether `t` is exactly eight binary digits.
pub open spec fn is_binary_token(t: Seq<char>) -> bool {
    &&& t.len() == 8
    &&& forall|i: int| 0 <= i < 8 ==> is_binary_digit(#[trigger] t[i])
}

/// The number that the first `n` digits of `t` contribute, each with the
/// weight of its place.
pub open spec fn weighted_prefix(t: Seq<char>, n: int) -> int
    decreases n,
{
    if n <= 0 {
        0
    } else {
        weighted_prefix(t, n - 1) + place_weight(n - 1) * binary_digit_value(t[n - 1])
    }
}

/// The number that the eight binary digits of `t` stand for.
pub open spec fn binary_token_value(t: Seq<char>) -> int {
    weighted_prefix(t, 8)
}

/// The upper-case hexadecimal digit for a number below sixteen.
pub open spec fn hex_digit_char(v: int) -> char {
    if v < 10 {
        (0x30 + v) as char
    } else {
        (0x37 + v) as char
    }
}

/// The two upper-case hexadecimal digits of `b`, high nibble first.
pub open spec fn hex_token(b: u8) -> Seq<char> {
    seq![hex_digit_char(b as int / 16), hex_digit_char(b as int % 16)]
}

/// Whether `c` is a decimal digit or one of the letters `A` to `F`.
pub open spec fn is_upper_hex_digit(c: char) -> bool {
    ('0' <= c && c <= '9') || ('A' <= c && c <= 'F')
}

/// Whether `c` is a hexadecimal digit of either case.
pub open spec fn is_hex_digit(c: char) -> bool {
    is_upper_hex_digit(c) || ('a' <= c && c <= 'f')
}

/// The number that a hexadecimal digit of either case stands for.
pub open spec fn hex_digit_value(c: char) -> int {
    if '0' <= c && c <= '9' {
        c as int - 0x30
    } else if 'A' <= c && c <= 'F' {
        c as int - 0x37
    } else {
        c as int - 0x57
    }
}

/// Whether `t` is exactly two hexadecimal digits, of either case.
pub open spec fn is_hex_token(t: Seq<char>) -> bool {
    &&& t.len() == 2
    &&& is_hex_digit(t[0])
    &&& is_hex_digit(t[1])
}

/// Whether `t` is exactly two upper-case hexadecimal digits.
pub open spec fn is_upper_hex_token(t: Seq<char>) -> bool {
    &&& t.len() == 2
    &&& is_upper_hex_digit(t[0])
    &&& is_upper_hex_digit(t[1])
}

/// The number that the two hexadecimal digits of `t` stand for.
pub open spec fn hex_token_value(t: Seq<char>) -> int {
    16 * hex_digit_value(t[0]) + hex_digit_value(t[1])
}

/// A binary token is well formed and stands for the byte it was made from.
pub proof fn lemma_binary_token_round_trip(b: u8)
    ensures
        is_binary_token(binary_token(b)),
        binary_token_value(binary_token(b)) == b,
{
    let t = binary_token(b);
    reveal_with_fuel(weighted_prefix, 9);
    assert(128 * ((b / 128) % 2) + 64 * ((b / 64) % 2) + 32 * ((b / 32) % 2) + 16 * ((b / 16) % 2)
        + 8 * ((b / 8) % 2) + 4 * ((b / 4) % 2) + 2 * ((b / 2) % 2) + b % 2 == b) by (bit_vector);
}

/// A well-formed binary token is the token of the byte it stands for.
pub proof fn lemma_binary_token_canonical(t: Seq<char>)
    requires
        is_binary_token(t),
    ensures
        0 <= binary_token_value(t) <= 255,
        binary_token(binary_token_value(t) as u8) == t,
{
    reveal_with_fuel(weighted_prefix, 9);
    assert(is_binary_digit(t[0]) && is_binary_digit(t[1]) && is_binary_digit(t[2])
        && is_binary_digit(t[3]) && is_binary_digit(t[4]) && is_binary_digit(t[5])
        && is_binary_digit(t[6]) && is_binary_digit(t[7]));
    let d0 = binary_digit_value(t[0]) as u32;
    let d1 = binary_digit_value(t[1]) as u32;
    let d2 = binary_digit_value(t[2]) as u32;
    let d3 = binary_digit_value(t[3]) as u32;
    let d4 = binary_digit_value(t[4]) as u32;
    let d5 = binary_digit_value(t[5]) as u32;
    let d6 = binary_digit_value(t[6]) as u32;
    let d7 = binary_digit_value(t[7]) as u32;
    let v = binary_token_value(t) as u32;
    assert(v == 128 * d0 + 64 * d1 + 32 * d2 + 16 * d3 + 8 * d4 + 4 * d5 + 2 * d6 + d7);
    assert((v / 128) % 2 == d0 && (v / 64) % 2 == d1 && (v / 32) % 2 == d2 && (v / 16) % 2 == d3
        && (v / 8) % 2 == d4 && (v / 4) % 2 == d5 && (v / 2) % 2 == d6 && v % 2 == d7) by (bit_vector)
        requires
            d0 <= 1 && d1 <= 1 && d2 <= 1 && d3 <= 1 && d4 <= 1 && d5 <= 1 && d6 <= 1 && d7 <= 1,
            v == 128 * d0 + 64 * d1 + 32 * d2 + 16 * d3 + 8 * d4 + 4 * d5 + 2 * d6 + d7,
    ;
    let b = binary_token_value(t) as u8;
    assert(b == v);
    assert forall|i: int| 0 <= i < 8 implies binary_token(b)[i] == t[i] by {
        assert(is_binary_digit(t[i]));
    }
    assert(binary_token(b) =~= t);
}

/// A hexadecimal token is well formed, in upper case, and stands for the
/// byte it was made from.
pub proof fn lemma_hex_token_round_trip(b: u8)
    ensures
        is_upper_hex_token(hex_token(b)),
        is_hex_token(hex_token(b)),
        hex_token_value(hex_token(b)) == b,
{
}

/// A well-formed hexadecimal token stands for a byte, and where it is in
/// upper case it is the token of that byte.
pub proof fn lemma_hex_token_canonical(t: Seq<char>)
    requires
        is_hex_token(t),
    ensures
        0 <= hex_token_value(t) <= 255,
        is_upper_hex_token(t) ==> hex_token(hex_token_value(t) as u8) == t,
{
    if is_upper_hex_token(t) {
        assert(hex_token(hex_token_value(t) as u8) =~= t);
    }
}

/// The binary digit for a bit.
fn binary_digit(bit: u8) -> (c: char)
    requires
        bit <= 1,
    ensures
        c == (if bit == 1 { '1' } else { '0' }),
{
    if bit == 1 {
        '1'
    } else {
        '0'
    }
}

/// Appends the binary token of `b` to `out`.
pub fn push_binary_token(out: &mut String, b: u8)
    ensures
        final(out)@ == old(out)@ + binary_token(b),
{
    out.push(binary_digit((b / 128) % 2));
    out.push(binary_digit((b / 64) % 2));
    out.push(binary_digit((b / 32) % 2));
    out.push(binary_digit((b / 16) % 2));
    out.push(binary_digit((b / 8) % 2));
    out.push(binary_digit((b / 4) % 2));
    out.push(binary_digit((b / 2) % 2));
    out.push(binary_digit(b % 2));
    assert(out@ =~= old(out)@ + binary_token(b));
}

/// The upper-case hexadecimal digit for a nibble.
fn hex_digit(nibble: u8) -> (c: char)
    requires
        nibble < 16,
    ensures
        c == hex_digit_char(nibble as int),
{
    if nibble < 10 {
        (0x30 + nibble) as char
    } else {
        (0x37 + nibble) as char
    }
}

/// Appends the hexadecimal token of `b` to `out`.
pub fn push_hex_token(out: &mut String, b: u8)
    ensures
        final(out)@ == old(out)@ + hex_token(b),
{
    out.push(hex_digit(b / 16));
    out.push(hex_digit(b % 16));
    assert(out@ =~= old(out)@ + hex_token(b));
}

/// The number that `c` stands for as a binary digit, if it is one.
fn read_binary_digit(c: char) -> (r: Option<u8>)
    ensures
        match r {
            Some(d) => is_binary_digit(c) && d == binary_digit_value(c),
            None => !is_binary_digit(c),
        },
{
    if c == '0' {
        Some(0)
    } else if c == '1' {
        Some(1)
    } else {
        None
    }
}

/// Reads the binary token that starts at `start`: the byte it stands for,
/// or `None` where the eight characters from `start` on are not all there
/// or not all binary digits.
pub fn parse_binary_token(chars: &[char], start: usize) -> (r: Option<u8>)
    ensures
        match r {
            Some(b) => {
                &&& start + 8 <= chars.len()
                &&& is_binary_token(chars@.subrange(start as int, start + 8))
                &&& b == binary_token_value(chars@.subrange(start as int, start + 8))
            },
            None => start + 8 > chars.len() || !is_binary_token(
                chars@.subrange(start as int, start + 8),
            ),
        },
{
    if chars.len() < 8 || start > chars.len() - 8 {
        return None;
    }
    let ghost t = chars@.subrange(start as int, start + 8);
    let mut value: u8 = 0;
    let mut weight: u8 = 128;
    let mut i: usize = 0;
    while i < 8
        invariant
            i <= 8,
            start + 8 <= chars.len(),
            t == chars@.subrange(start as int, start + 8),
            forall|j: int| 0 <= j < i ==> is_binary_digit(#[trigger] t[j]),
            weight == place_weight(i as int),
            value == weighted_prefix(t, i as int),
            value + 2 * weight <= 256,
        decreases 8 - i,
    {
        assert(chars[start + i] == t[i as int]);
        match read_binary_digit(chars[start + i]) {
            Some(d) => {
                value = value + weight * d;
            },
            None => {
                return None;
            },
        }
        weight = weight / 2;
        i += 1;
    }
    Some(value)
}

/// The number that `c` stands for as a hexadecimal digit, if it is one.
fn read_hex_digit(c: char) -> (r: Option<u8>)
    ensures
        match r {
            Some(d) => is_hex_digit(c) && d == hex_digit_value(c),
            None => !is_hex_digit(c),
        },
{
    let code: u32 = c as u32;
    if 0x30 <= code && code <= 0x39 {
        Some((code - 0x30) as u8)
    } else if 0x41 <= code && code <= 0x46 {
        Some((code - 0x37) as u8)
    } else if 0x61 <= code && code <= 0x66 {
        Some((code - 0x57) as u8)
    } else {
        None
    }
}

/// Reads the hexadecimal token that starts at `start`: the byte it stands
/// for, or `None` where the two characters from `start` on are not both
/// there or not both hexadecimal digits.
pub fn parse_hex_token(chars: &[char], start: usize) -> (r: Option<u8>)
    ensures
        match r {
            Some(b) => {
                &&& start + 2 <= chars.len()
                &&& is_hex_token(chars@.subrange(start as int, start + 2))
                &&& b == hex_token_value(chars@.subrange(start as int, start + 2))
            },
            None => start + 2 > chars.len() || !is_hex_token(
                chars@.subrange(start as int, start + 2),
            ),
        },
{
    if chars.len() < 2 || start > chars.len() - 2 {
        return None;
    }
    let ghost t = chars@.subrange(start as int, start + 2);
    assert(chars[start as int] == t[0] && chars[start + 1] == t[1]);
    match (read_hex_digit(chars[start]), read_hex_digit(chars[start + 1])) {
        (Some(high), Some(low)) => Some(16 * high + low),
        _ => None,
    }
}

} // verus!
