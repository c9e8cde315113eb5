//! Hide, retrieve and remove auxiliary data chunks in PNG containers.
//!
//! The library models the PNG chunk layout: a fixed 8-byte signature
//! followed by length-prefixed, CRC-checksummed records.  Parsing
//! validates every chunk; serialization reproduces the byte-exact wire
//! format.

pub mod chunk;
pub mod chunk_type;
pub mod codec;
pub mod png;
pub mod xor;
