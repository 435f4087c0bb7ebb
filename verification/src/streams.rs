//! Streams delivered to the consumer: byte-count hints, addressed chunks,
//! the chunk stream, and the part-ordered stream on top of it.

pub mod bytes_hint;
pub mod chunk;
pub mod chunk_stream;
pub mod part_stream;
