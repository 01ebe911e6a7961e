//! Conversions between text, space-separated binary octets and space-separated
//! hexadecimal octets.

pub mod codec;
pub mod error;
pub mod laws;
pub mod line;
pub mod text;
pub mod token;

pub use codec::{
    convert_binary_to_hex, convert_binary_to_text, convert_hex_to_binary, convert_hex_to_text,
    convert_text_to_binary, convert_text_to_hex,
};
pub use error::ConvertError;
