//! A schema-driven binary codec for a big-endian, length-framed wire
//! protocol, together with the 4-byte message framing built on top of it
//! and a parser for the on-disk record-batch log format that reuses the
//! same conventions.

pub mod api_versions;
pub mod codec;
pub mod compact_string;
pub mod constants;
pub mod describe_topic_partitions;
pub mod error;
pub mod framing;
pub mod headers;
pub mod metadata_log_file;
pub mod primitives;
pub mod server;
pub mod uuid;
pub mod value;
pub mod varint;
