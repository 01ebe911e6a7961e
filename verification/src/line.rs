//! Encoded lines: tokens joined by single spaces.
//!
//! A line holds one token for each byte, in the order of the bytes, with one
//! space between neighbours and none at either end. The empty line holds no
//! token. Since every token of an encoding has the same width, the token
//! with index `k` of a binary line starts at character `9 * k`, and that of a
//! hexadecimal line at character `3 * k`.

use vstd::prelude::*;
use crate::error::ConvertError;
use crate::text::chars_of;
use crate::token::{
    binary_token, binary_token_value, hex_token, hex_token_value, is_binary_token, is_hex_token,
    is_upper_hex_token, lemma_binary_token_canonical, lemma_binary_token_round_trip,
    lemma_hex_token_canonical, lemma_hex_token_round_trip, parse_binary_token, parse_hex_token,
    push_binary_token, push_hex_token,
};

verus! {

/// The binary tokens of `bytes`, joined by single spaces.
pub open spec fn binary_line(bytes: Seq<u8>) -> Seq<char>
    decreases bytes.len(),
{
    if bytes.len() == 0 {
        Seq::empty()
    } else if bytes.len() == 1 {
        binary_token(bytes[0])
    } else {
        binary_line(bytes.drop_last()) + seq![' '] + binary_token(bytes.last())
    }
}

/// The eight characters at the place of the token with index `k`.
pub open spec fn binary_line_token(s: Seq<char>, k: int) -> Seq<char> {
    s.subrange(9 * k, 9 * k + 8)
}

/// The character that follows the token with index `k`.
pub open spec fn binary_line_separator(s: Seq<char>, k: int) -> char {
    s[9 * k + 8]
}

/// The number of tokens that a binary line of the length of `s` holds.
pub open spec fn binary_line_count(s: Seq<char>) -> nat {
    (s.len() + 1) / 9
}

/// Whether `s` is a binary line: empty, or binary tokens with exactly one
/// space between neighbours and nothing else.
pub open spec fn is_binary_line(s: Seq<char>) -> bool {
    s.len() == 0 || {
        &&& s.len() % 9 == 8
        &&& forall|k: int|
            0 <= k < binary_line_count(s) ==> is_binary_token(#[trigger] binary_line_token(s, k))
        &&& forall|k: int|
            0 <= k < binary_line_count(s) - 1 ==> #[trigger] binary_line_separator(s, k) == ' '
    }
}

/// The bytes that the tokens of a binary line stand for.
pub open spec fn binary_line_bytes(s: Seq<char>) -> Seq<u8> {
    Seq::new(
        binary_line_count(s),
        |k: int| binary_token_value(binary_line_token(s, k)) as u8,
    )
}

/// The hexadecimal tokens of `bytes`, joined by single spaces.
pub open spec fn hex_line(bytes: Seq<u8>) -> Seq<char>
    decreases bytes.len(),
{
    if bytes.len() == 0 {
        Seq::empty()
    } else if bytes.len() == 1 {
        hex_token(bytes[0])
    } else {
        hex_line(bytes.drop_last()) + seq![' '] + hex_token(bytes.last())
    }
}

/// The two characters at the place of the token with index `k`.
pub open spec fn hex_line_token(s: Seq<char>, k: int) -> Seq<char> {
    s.subrange(3 * k, 3 * k + 2)
}

/// The character that follows the token with index `k`.
pub open spec fn hex_line_separator(s: Seq<char>, k: int) -> char {
    s[3 * k + 2]
}

/// The number of tokens that a hexadecimal line of the length of `s` holds.
pub open spec fn hex_line_count(s: Seq<char>) -> nat {
    (s.len() + 1) / 3
}

/// Whether `s` is a hexadecimal line: empty, or hexadecimal tokens of either
/// case with exactly one space between neighbours and nothing else.
pub open spec fn is_hex_line(s: Seq<char>) -> bool {
    s.len() == 0 || {
        &&& s.len() % 3 == 2
        &&& forall|k: int|
            0 <= k < hex_line_count(s) ==> is_hex_token(#[trigger] hex_line_token(s, k))
        &&& forall|k: int|
            0 <= k < hex_line_count(s) - 1 ==> #[trigger] hex_line_separator(s, k) == ' '
    }
}

/// Whether `s` is a hexadecimal line whose digits are all in upper case.
pub open spec fn is_upper_hex_line(s: Seq<char>) -> bool {
    &&& is_hex_line(s)
    &&& forall|k: int|
        0 <= k < hex_line_count(s) ==> is_upper_hex_token(#[trigger] hex_line_token(s, k))
}

/// The bytes that the tokens of a hexadecimal line stand for.
pub open spec fn hex_line_bytes(s: Seq<char>) -> Seq<u8> {
    Seq::new(hex_line_count(s), |k: int| hex_token_value(hex_line_token(s, k)) as u8)
}

/// Where each token and each space of the binary line of `bytes` stands.
pub proof fn lemma_binary_line_layout(bytes: Seq<u8>)
    ensures
        bytes.len() == 0 ==> binary_line(bytes).len() == 0,
        bytes.len() > 0 ==> binary_line(bytes).len() == 9 * bytes.len() - 1,
        forall|k: int|
            0 <= k < bytes.len() ==> #[trigger] binary_line_token(binary_line(bytes), k)
                == binary_token(bytes[k]),
        forall|k: int|
            0 <= k < bytes.len() - 1 ==> #[trigger] binary_line_separator(binary_line(bytes), k)
                == ' ',
    decreases bytes.len(),
{
    let line = binary_line(bytes);
    if bytes.len() == 1 {
        assert(binary_line_token(line, 0) =~= binary_token(bytes[0]));
    } else if bytes.len() > 1 {
        let front = bytes.drop_last();
        let prev = binary_line(front);
        let n = bytes.len() as int;
        lemma_binary_line_layout(front);
        assert(line == prev + seq![' '] + binary_token(bytes.last()));
        assert(prev.len() == 9 * n - 10);
        assert forall|k: int| 0 <= k < n implies #[trigger] binary_line_token(line, k)
            == binary_token(bytes[k]) by {
            if k < n - 1 {
                assert(binary_line_token(line, k) =~= binary_line_token(prev, k));
                assert(front[k] == bytes[k]);
            } else {
                assert(binary_line_token(line, k) =~= binary_token(bytes.last()));
            }
        }
        assert forall|k: int| 0 <= k < n - 1 implies #[trigger] binary_line_separator(line, k)
            == ' ' by {
            if k < n - 2 {
                assert(binary_line_separator(line, k) == binary_line_separator(prev, k));
            }
        }
    }
}

/// Where each token and each space of the hexadecimal line of `bytes` stands.
pub proof fn lemma_hex_line_layout(bytes: Seq<u8>)
    ensures
        bytes.len() == 0 ==> hex_line(bytes).len() == 0,
        bytes.len() > 0 ==> hex_line(bytes).len() == 3 * bytes.len() - 1,
        forall|k: int|
            0 <= k < bytes.len() ==> #[trigger] hex_line_token(hex_line(bytes), k) == hex_token(
                bytes[k],
            ),
        forall|k: int|
            0 <= k < bytes.len() - 1 ==> #[trigger] hex_line_separator(hex_line(bytes), k) == ' ',
    decreases bytes.len(),
{
    let line = hex_line(bytes);
    if bytes.len() == 1 {
        assert(hex_line_token(line, 0) =~= hex_token(bytes[0]));
    } else if bytes.len() > 1 {
        let front = bytes.drop_last();
        let prev = hex_line(front);
        let n = bytes.len() as int;
        lemma_hex_line_layout(front);
        assert(line == prev + seq![' '] + hex_token(bytes.last()));
        assert(prev.len() == 3 * n - 4);
        assert forall|k: int| 0 <= k < n implies #[trigger] hex_line_token(line, k) == hex_token(
            bytes[k],
        ) by {
            if k < n - 1 {
                assert(hex_line_token(line, k) =~= hex_line_token(prev, k));
                assert(front[k] == bytes[k]);
            } else {
                assert(hex_line_token(line, k) =~= hex_token(bytes.last()));
            }
        }
        assert forall|k: int| 0 <= k < n - 1 implies #[trigger] hex_line_separator(line, k)
            == ' ' by {
            if k < n - 2 {
                assert(hex_line_separator(line, k) == hex_line_separator(prev, k));
            }
        }
    }
}

/// The binary line of `bytes` is a binary line, and its tokens stand for
/// `bytes`.
pub proof fn lemma_binary_line_round_trip(bytes: Seq<u8>)
    ensures
        is_binary_line(binary_line(bytes)),
        binary_line_bytes(binary_line(bytes)) == bytes,
{
    let line = binary_line(bytes);
    lemma_binary_line_layout(bytes);
    assert(binary_line_count(line) == bytes.len());
    assert forall|k: int| 0 <= k < bytes.len() implies is_binary_token(
        #[trigger] binary_line_token(line, k),
    ) && binary_token_value(binary_line_token(line, k)) == bytes[k] by {
        lemma_binary_token_round_trip(bytes[k]);
    }
    assert(binary_line_bytes(line) =~= bytes);
}

/// A binary line is the binary line of the bytes that its tokens stand for.
pub proof fn lemma_binary_line_canonical(s: Seq<char>)
    requires
        is_binary_line(s),
    ensures
        binary_line(binary_line_bytes(s)) == s,
{
    let bytes = binary_line_bytes(s);
    let line = binary_line(bytes);
    lemma_binary_line_layout(bytes);
    if s.len() > 0 {
        assert(line.len() == s.len());
        assert forall|i: int| 0 <= i < s.len() implies line[i] == s[i] by {
            let k = i / 9;
            let j = i % 9;
            if j == 8 {
                assert(binary_line_separator(s, k) == ' ');
                assert(binary_line_separator(line, k) == ' ');
            } else {
                let t = binary_line_token(s, k);
                assert(is_binary_token(t));
                lemma_binary_token_canonical(t);
                assert(binary_line_token(line, k) == binary_token(bytes[k]));
                assert(binary_line_token(line, k)[j] == line[i]);
                assert(t[j] == s[i]);
            }
        }
    }
    assert(line =~= s);
}

/// The hexadecimal line of `bytes` is a hexadecimal line in upper case, and
/// its tokens stand for `bytes`.
pub proof fn lemma_hex_line_round_trip(bytes: Seq<u8>)
    ensures
        is_upper_hex_line(hex_line(bytes)),
        hex_line_bytes(hex_line(bytes)) == bytes,
{
    let line = hex_line(bytes);
    lemma_hex_line_layout(bytes);
    assert(hex_line_count(line) == bytes.len());
    assert forall|k: int| 0 <= k < bytes.len() implies is_upper_hex_token(
        #[trigger] hex_line_token(line, k),
    ) && is_hex_token(hex_line_token(line, k)) && hex_token_value(hex_line_token(line, k))
        == bytes[k] by {
        lemma_hex_token_round_trip(bytes[k]);
    }
    assert(is_hex_line(line));
    assert(hex_line_bytes(line) =~= bytes);
}

/// A hexadecimal line in upper case is the hexadecimal line of the bytes
/// that its tokens stand for.
pub proof fn lemma_hex_line_canonical(s: Seq<char>)
    requires
        is_upper_hex_line(s),
    ensures
        hex_line(hex_line_bytes(s)) == s,
{
    let bytes = hex_line_bytes(s);
    let line = hex_line(bytes);
    lemma_hex_line_layout(bytes);
    if s.len() > 0 {
        assert(line.len() == s.len());
        assert forall|i: int| 0 <= i < s.len() implies line[i] == s[i] by {
            let k = i / 3;
            let j = i % 3;
            if j == 2 {
                assert(hex_line_separator(s, k) == ' ');
                assert(hex_line_separator(line, k) == ' ');
            } else {
                let t = hex_line_token(s, k);
                assert(is_upper_hex_token(t));
                assert(is_hex_token(t));
                lemma_hex_token_canonical(t);
                assert(hex_line_token(line, k) == hex_token(bytes[k]));
                assert(hex_line_token(line, k)[j] == line[i]);
                assert(t[j] == s[i]);
            }
        }
    }
    assert(line =~= s);
}

/// The binary line of `bytes`.
pub fn encode_binary(bytes: &[u8]) -> (line: String)
    ensures
        line@ == binary_line(bytes@),
{
    let mut line = String::new();
    let mut i: usize = 0;
    while i < bytes.len()
        invariant
            i <= bytes.len(),
            line@ == binary_line(bytes@.take(i as int)),
        decreases bytes.len() - i,
    {
        if i > 0 {
            line.push(' ');
        }
        push_binary_token(&mut line, bytes[i]);
        proof {
            let next = bytes@.take(i + 1);
            assert(next.drop_last() =~= bytes@.take(i as int));
            assert(line@ =~= binary_line(next));
        }
        i += 1;
    }
    assert(bytes@.take(i as int) =~= bytes@);
    line
}

/// The hexadecimal line of `bytes`, in upper case.
pub fn encode_hex(bytes: &[u8]) -> (line: String)
    ensures
        line@ == hex_line(bytes@),
{
    let mut line = String::new();
    let mut i: usize = 0;
    while i < bytes.len()
        invariant
            i <= bytes.len(),
            line@ == hex_line(bytes@.take(i as int)),
        decreases bytes.len() - i,
    {
        if i > 0 {
            line.push(' ');
        }
        push_hex_token(&mut line, bytes[i]);
        proof {
            let next = bytes@.take(i + 1);
            assert(next.drop_last() =~= bytes@.take(i as int));
            assert(line@ =~= hex_line(next));
        }
        i += 1;
    }
    assert(bytes@.take(i as int) =~= bytes@);
    line
}

/// The bytes of a binary line, or `MalformedToken` where `line` is not one.
pub fn decode_binary(line: &str) -> (r: Result<Vec<u8>, ConvertError>)
    ensures
        match r {
            Ok(bytes) => is_binary_line(line@) && bytes@ == binary_line_bytes(line@),
            Err(e) => !is_binary_line(line@) && e == ConvertError::MalformedToken,
        },
{
    let chars = chars_of(line);
    let len = chars.len();
    let mut bytes: Vec<u8> = Vec::new();
    if len == 0 {
        assert(bytes@ =~= binary_line_bytes(line@));
        return Ok(bytes);
    }
    if len % 9 != 8 {
        return Err(ConvertError::MalformedToken);
    }
    let count = len / 9 + 1;
    let mut k: usize = 0;
    while k < count
        invariant
            chars@ == line@,
            len == chars.len(),
            len % 9 == 8,
            count == binary_line_count(line@),
            k <= count,
            bytes@ == binary_line_bytes(line@).take(k as int),
            forall|j: int| 0 <= j < k ==> is_binary_token(#[trigger] binary_line_token(line@, j)),
            forall|j: int|
                0 <= j < k && j < count - 1 ==> #[trigger] binary_line_separator(line@, j) == ' ',
        decreases count - k,
    {
        let start = 9 * k;
        match parse_binary_token(chars.as_slice(), start) {
            Some(b) => {
                bytes.push(b);
            },
            None => {
                assert(!is_binary_token(binary_line_token(line@, k as int)));
                return Err(ConvertError::MalformedToken);
            },
        }
        if k + 1 < count && chars[start + 8] != ' ' {
            assert(binary_line_separator(line@, k as int) != ' ');
            return Err(ConvertError::MalformedToken);
        }
        assert(bytes@ =~= binary_line_bytes(line@).take(k + 1));
        k += 1;
    }
    assert(bytes@ =~= binary_line_bytes(line@));
    Ok(bytes)
}

/// The bytes of a hexadecimal line, or `MalformedToken` where `line` is not
/// one. Digits of either case are read.
pub fn decode_hex(line: &str) -> (r: Result<Vec<u8>, ConvertError>)
    ensures
        match r {
            Ok(bytes) => is_hex_line(line@) && bytes@ == hex_line_bytes(line@),
            Err(e) => !is_hex_line(line@) && e == ConvertError::MalformedToken,
        },
{
    let chars = chars_of(line);
    let len = chars.len();
    let mut bytes: Vec<u8> = Vec::new();
    if len == 0 {
        assert(bytes@ =~= hex_line_bytes(line@));
        return Ok(bytes);
    }
    if len % 3 != 2 {
        return Err(ConvertError::MalformedToken);
    }
    let count = len / 3 + 1;
    let mut k: usize = 0;
    while k < count
        invariant
            chars@ == line@,
            len == chars.len(),
            len % 3 == 2,
            count == hex_line_count(line@),
            k <= count,
            bytes@ == hex_line_bytes(line@).take(k as int),
            forall|j: int| 0 <= j < k ==> is_hex_token(#[trigger] hex_line_token(line@, j)),
            forall|j: int|
                0 <= j < k && j < count - 1 ==> #[trigger] hex_line_separator(line@, j) == ' ',
        decreases count - k,
    {
        let start = 3 * k;
        match parse_hex_token(chars.as_slice(), start) {
            Some(b) => {
                bytes.push(b);
            },
            None => {
                assert(!is_hex_token(hex_line_token(line@, k as int)));
                return Err(ConvertError::MalformedToken);
            },
        }
        if k + 1 < count && chars[start + 2] != ' ' {
            assert(hex_line_separator(line@, k as int) != ' ');
            return Err(ConvertError::MalformedToken);
        }
        assert(bytes@ =~= hex_line_bytes(line@).take(k + 1));
        k += 1;
    }
    assert(bytes@ =~= hex_line_bytes(line@));
    Ok(bytes)
}

} // verus!
