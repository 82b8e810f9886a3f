//! A binary encoding of requests and responses.
//!
//! Integers are little-endian and of fixed width. A string is its length in
//! bytes as a 64-bit integer, then its UTF-8 bytes. An optional value is one
//! byte, 0 or 1, followed by the value where the byte is 1. A sequence is its
//! length as a 64-bit integer, then its elements. A record is the length of
//! its body as a 64-bit integer, then its fields in declaration order; a
//! reader takes the fields it knows and passes over the rest of the body, so
//! fields can be added at the end of a record without breaking older readers.
//! A message is one tag byte and a record.
pub mod format;
pub mod records;
pub mod message;
pub mod encode;
pub mod decode;
