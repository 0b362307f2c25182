//! A codec for the PNG container format.
//!
//! A PNG stream is an eight-byte signature followed by records ("chunks"),
//! each made of a big-endian length, a four-letter type code, a payload and
//! a CRC-32 trailer. This crate parses such a stream into an ordered list of
//! checked chunks, lets chunks be looked up, appended and removed by type,
//! and writes the list back out byte for byte.
//!
//! Every executable function carries a contract over a mathematical model
//! of its data: byte strings are `Seq<u8>`, a chunk is a [`chunk::ChunkView`]
//! and a document is a sequence of them.
pub mod be32;
pub mod chunk;
pub mod chunk_type;
pub mod crc;
pub mod png;
pub mod text;
