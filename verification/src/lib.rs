//! A canonical JSON codec: a deterministic, minimal encoder from typed
//! structured values to JSON bytes, and a decoder for the escape grammar of
//! JSON string literals.
//!
//! The encoder produces a byte-for-byte reproducible form: no insignificant
//! whitespace, a fixed escape set, minimal-length UTF-8 for everything that
//! does not have to be escaped. The decoder reverses the string-literal
//! escaping and validates escape syntax and Unicode scalar values.

pub mod de;
pub mod laws;
pub mod ser;
pub mod value;

pub use de::{hex_decode, hex_decode_4bit, unescape};
pub use ser::{
    hex, hex_4bit, to_string, to_vec, Error, SerializeMap, SerializeSeq, SerializeStruct,
    Serializer, Unreachable,
};
pub use value::Value;
