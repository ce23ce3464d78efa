use vstd::prelude::*;

verus! {

/// Why a Parquet structure could not be decoded.
#[derive(Debug, Clone, PartialEq, Eq)]
pub enum FormatError {
    /// The object is shorter than the 8-byte footer.
    Truncated { len: u64 },
    /// The last four bytes are not the Parquet magic `PAR1`.
    BadMagic,
    /// The footer announces more metadata than the object holds before the footer.
    MetadataOutOfRange { metadata_len: u64, file_len: u64 },
    /// The metadata payload could not be decoded.
    CorruptMetadata { message: String },
    /// A size or a count in the metadata is negative or does not fit in 64 bits.
    InvalidCount,
}

/// The error taxonomy of the access layer.
#[derive(Debug, Clone, PartialEq, Eq)]
pub enum ViewerError {
    /// Malformed or truncated Parquet structures: terminal, never retried.
    Format(FormatError),
    /// A network or permission failure while reading bytes: the caller may retry.
    Io { message: String },
    /// SQL parsing, planning or execution failed.
    Query { message: String },
}

} // verus!
