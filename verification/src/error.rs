//! The ways in which a conversion can fail.

use vstd::prelude::*;

verus! {

/// Why an input could not be converted.
#[derive(Debug, Clone, Copy, PartialEq, Eq, Structural)]
pub enum ConvertError {
    /// A character of a text input does not fit in a single byte.
    InvalidCharacter,
    /// A token is not made of exactly the digits its encoding asks for.
    MalformedToken,
}

} // verus!
