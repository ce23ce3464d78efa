use vstd::prelude::*;

use crate::display_info::{info_of, summary_valid, DisplayInfo};
use crate::error::FormatError;
use crate::footer::{locate_metadata, locate_metadata_spec};
use crate::parquet_meta::MetadataSummary;

verus! {

/// The metadata payload of an object held whole in memory: the bytes that
/// the footer announces, immediately before it.
pub fn metadata_payload(buf: &[u8]) -> (r: Result<&[u8], FormatError>)
    ensures
        match locate_metadata_spec(buf@.len(), buf@) {
            Ok(range) => r matches Ok(p) && p@ == buf@.subrange(range.start as int, range.end as int),
            Err(e) => r == Err::<&[u8], FormatError>(e),
        },
{
    match locate_metadata(buf.len(), buf) {
        Ok(range) => Ok(vstd::slice::slice_subrange(buf, range.start, range.end)),
        Err(e) => Err(e),
    }
}

/// A registered Parquet table: its name and its decoded metadata.
pub struct ParquetTable {
    pub table_name: String,
    pub summary: MetadataSummary,
    /// Length of the metadata payload, in bytes.
    pub metadata_len: u64,
}

impl PartialEq for ParquetTable {
    /// Two tables are the same table when their names agree.
    fn eq(&self, other: &ParquetTable) -> (r: bool)
        ensures
            r == (self.table_name@ == other.table_name@),
    {
        self.table_name == other.table_name
    }
}

impl vstd::std_specs::cmp::PartialEqSpecImpl for ParquetTable {
    open spec fn obeys_eq_spec() -> bool {
        true
    }

    open spec fn eq_spec(&self, other: &ParquetTable) -> bool {
        self.table_name@ == other.table_name@
    }
}

/// A loaded table together with its display statistics.
pub struct ParquetFileReader {
    pub parquet_table: ParquetTable,
    pub display_info: DisplayInfo,
}

impl ParquetFileReader {
    /// Derives the display statistics of `table` from its metadata; fails
    /// with `InvalidCount` where a size or count is negative or a total does
    /// not fit in 64 bits.
    pub fn new(table: ParquetTable) -> (r: Result<ParquetFileReader, FormatError>)
        ensures
            summary_valid(table.summary) <==> r is Ok,
            r matches Ok(reader) ==> reader.parquet_table == table && info_of(
                reader.display_info,
                table.summary,
                table.metadata_len,
            ),
            !summary_valid(table.summary) ==> r == Err::<ParquetFileReader, FormatError>(
                FormatError::InvalidCount,
            ),
    {
        match DisplayInfo::from_summary(&table.summary, table.metadata_len) {
            Ok(display_info) => Ok(ParquetFileReader { parquet_table: table, display_info }),
            Err(e) => Err(e),
        }
    }

    pub fn info(&self) -> (r: &DisplayInfo)
        ensures
            *r == self.display_info,
    {
        &self.display_info
    }

    pub fn table_name(&self) -> (r: &str)
        ensures
            r@ == self.parquet_table.table_name@,
    {
        self.parquet_table.table_name.as_str()
    }
}

} // verus!
