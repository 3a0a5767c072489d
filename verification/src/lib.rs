//! A verified codec for the chunked binary container format used by PNG
//! images, together with a hash-prefix search that forges a metadata chunk
//! whose presence drives the file's digest to a chosen hex prefix.

pub mod binary;
pub mod chunk;
pub mod chunk_type;
pub mod crc;
pub mod digest;
pub mod png;
pub mod spoof;
pub mod text;
