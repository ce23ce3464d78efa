//! The decoded metadata of a Parquet file, as the plain values that the
//! display statistics are derived from.

use vstd::prelude::*;

verus! {

/// One field of the logical schema.
#[derive(Debug, Clone, PartialEq, Eq)]
pub struct SchemaField {
    pub name: String,
    pub data_type: String,
}

/// Where a page-index sidecar of a column chunk is stored.
#[derive(Debug, Clone, Copy, PartialEq, Eq, Structural)]
pub struct IndexLocation {
    pub offset: Option<i64>,
    pub length: Option<i32>,
}

/// What the display statistics read from one column chunk.
#[derive(Debug, Clone, Copy, PartialEq, Eq, Structural)]
pub struct ChunkSummary {
    pub has_statistics: bool,
    pub bloom_filter_offset: Option<i64>,
    pub column_index: IndexLocation,
    pub offset_index: IndexLocation,
}

/// What the display statistics read from one row group.
#[derive(Debug, Clone, PartialEq, Eq)]
pub struct RowGroupSummary {
    /// Compressed size of each column chunk, in column order.
    pub chunk_compressed_sizes: Vec<i64>,
    /// Uncompressed size of the row group's column data.
    pub uncompressed_size: i64,
    pub num_rows: i64,
}

/// The decoded metadata of a Parquet file, as plain values.
#[derive(Debug, Clone, PartialEq, Eq)]
pub struct MetadataSummary {
    pub row_groups: Vec<RowGroupSummary>,
    /// The row count that the file declares.
    pub num_rows: i64,
    /// The first column chunk of the first row group, if there is one.
    pub first_chunk: Option<ChunkSummary>,
    /// The logical schema.
    pub fields: Vec<SchemaField>,
}

} // verus!
