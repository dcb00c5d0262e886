//! A single-blob file archiver: records of (name, bytes) are framed into one
//! stream, the stream is optionally compressed as a whole, and a trailing flag
//! byte says which.

pub mod bytes;
pub mod error;
pub mod metadata;
pub mod framing;
pub mod compression;
pub mod archive;
