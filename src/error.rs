//! Why an archive could not be read back.

use vstd::prelude::*;

verus! {

#[derive(Debug, Clone, Copy, PartialEq, Eq, Structural)]
pub enum ArchiveError {
    /// The buffer ended before a length field, a metadata blob or a file's
    /// contents that it announced, or an artifact has no flag byte.
    TruncatedStream,
    /// A metadata blob is not the encoding of a name and a length.
    MalformedMetadata,
    /// The compressed payload does not inflate.
    DecompressionError,
}

impl ArchiveError {
    /// A short description of the error for messages.
    pub fn message(&self) -> (r: String)
        ensures
            *self == ArchiveError::TruncatedStream ==> r@ == "archive stream is truncated"@,
            *self == ArchiveError::MalformedMetadata ==> r@ == "file metadata is malformed"@,
            *self == ArchiveError::DecompressionError ==> r@ == "archive does not decompress"@,
    {
        match self {
            ArchiveError::TruncatedStream => String::from_str("archive stream is truncated"),
            ArchiveError::MalformedMetadata => String::from_str("file metadata is malformed"),
            ArchiveError::DecompressionError => String::from_str("archive does not decompress"),
        }
    }
}

} // verus!
