use vstd::prelude::*;

use crate::error::FormatError;
use crate::parquet_meta::{IndexLocation, MetadataSummary, RowGroupSummary, SchemaField};

verus! {

/// The scale of `DisplayInfo::compression_ratio_ppm`: parts per million.
pub const RATIO_SCALE: u128 = 1_000_000;

/// Sum of a sequence of integers.
pub open spec fn sum_of(s: Seq<int>) -> int
    decreases s.len(),
{
    if s.len() == 0 {
        0
    } else {
        sum_of(s.drop_last()) + s.last()
    }
}

pub open spec fn ints_of_i64(s: Seq<i64>) -> Seq<int> {
    s.map_values(|v: i64| v as int)
}

pub open spec fn ints_of_u64(s: Seq<u64>) -> Seq<int> {
    s.map_values(|v: u64| v as int)
}

/// The sum of `s` when every term is non-negative and the sum fits in a
/// `u64`; `None` otherwise.
pub open spec fn checked_total(s: Seq<int>) -> Option<int> {
    if (forall|i: int| 0 <= i < s.len() ==> s[i] >= 0) && sum_of(s) <= u64::MAX {
        Some(sum_of(s))
    } else {
        None
    }
}

/// Compressed size of a row group: the sum of its column chunks.
pub open spec fn row_group_compressed(rg: RowGroupSummary) -> Option<int> {
    checked_total(ints_of_i64(rg.chunk_compressed_sizes@))
}

/// Compressed size of the file: the sum over its row groups.
pub open spec fn compressed_total(rgs: Seq<RowGroupSummary>) -> Option<int> {
    if forall|i: int| 0 <= i < rgs.len() ==> row_group_compressed(#[trigger] rgs[i]) is Some {
        checked_total(rgs.map_values(|rg: RowGroupSummary| row_group_compressed(rg)->Some_0))
    } else {
        None
    }
}

/// Uncompressed size of the file: the sum of the row groups' sizes.
pub open spec fn uncompressed_total(rgs: Seq<RowGroupSummary>) -> Option<int> {
    checked_total(rgs.map_values(|rg: RowGroupSummary| rg.uncompressed_size as int))
}

/// `compressed / uncompressed` in parts per million, rounded down; `None`
/// stands for an unknown ratio, when the uncompressed size is zero.
pub open spec fn ratio_ppm(compressed: int, uncompressed: int) -> Option<int> {
    if uncompressed == 0 {
        None
    } else {
        Some(compressed * RATIO_SCALE / uncompressed)
    }
}

/// Whether a column chunk declares an index sidecar: an offset and a
/// non-zero length.
pub open spec fn index_present(loc: IndexLocation) -> bool {
    loc.offset is Some && loc.length is Some && loc.length->Some_0 > 0
}

/// User-facing statistics of a Parquet file, derived once per load.
#[derive(Debug, Clone, PartialEq, Eq)]
pub struct DisplayInfo {
    /// Total compressed size of the column data, in bytes.
    pub file_size: u64,
    /// Total uncompressed size of the column data, in bytes.
    pub uncompressed_size: u64,
    /// `file_size / uncompressed_size` in parts per million; `None` when unknown.
    pub compression_ratio_ppm: Option<u128>,
    pub row_group_count: u64,
    pub row_count: u64,
    pub columns: u64,
    /// Whether the first column chunk carries statistics.
    pub has_row_group_stats: bool,
    /// Whether the first column chunk declares a column index: an offset and a
    /// non-zero length. The index itself is not read.
    pub has_column_index: bool,
    /// Whether the first column chunk declares an offset index: an offset and a
    /// non-zero length. The index itself is not read.
    pub has_page_index: bool,
    /// Whether the first column chunk has a bloom filter.
    pub has_bloom_filter: bool,
    /// The logical schema.
    pub schema: Vec<SchemaField>,
    /// Length of the metadata payload, in bytes.
    pub metadata_len: u64,
}

/// Whether `summary` can be displayed: sizes and counts are non-negative and
/// the totals fit in 64 bits.
pub open spec fn summary_valid(summary: MetadataSummary) -> bool {
    &&& compressed_total(summary.row_groups@) is Some
    &&& uncompressed_total(summary.row_groups@) is Some
    &&& summary.num_rows >= 0
}

/// What `DisplayInfo::from_summary` holds of a valid summary.
pub open spec fn info_of(info: DisplayInfo, summary: MetadataSummary, metadata_len: u64) -> bool {
    let c = compressed_total(summary.row_groups@)->Some_0;
    let u = uncompressed_total(summary.row_groups@)->Some_0;
    &&& info.file_size == c
    &&& info.uncompressed_size == u
    &&& info.compression_ratio_ppm == (match ratio_ppm(c, u) {
        Some(v) => Some(v as u128),
        None => None::<u128>,
    })
    &&& info.row_group_count == summary.row_groups@.len()
    &&& info.row_count == summary.num_rows
    &&& info.columns == summary.fields@.len()
    &&& info.has_row_group_stats == (summary.first_chunk matches Some(c) && c.has_statistics)
    &&& info.has_column_index == (summary.first_chunk matches Some(c) && index_present(c.column_index))
    &&& info.has_page_index == (summary.first_chunk matches Some(c) && index_present(c.offset_index))
    &&& info.has_bloom_filter == (summary.first_chunk matches Some(c) && c.bloom_filter_offset is Some)
    &&& info.schema@ == summary.fields@
    &&& info.metadata_len == metadata_len
}

proof fn lemma_sum_prefix_le(s: Seq<int>, k: int)
    requires
        0 <= k <= s.len(),
        forall|i: int| 0 <= i < s.len() ==> s[i] >= 0,
    ensures
        sum_of(s.take(k)) <= sum_of(s),
    decreases s.len() - k,
{
    if k < s.len() {
        lemma_sum_prefix_le(s, k + 1);
        assert(s.take(k + 1).drop_last() =~= s.take(k));
        assert(s.take(k + 1).last() == s[k]);
    } else {
        assert(s.take(k) =~= s);
    }
}

proof fn lemma_checked_total_bounds(s: Seq<int>)
    ensures
        checked_total(s) is Some ==> 0 <= checked_total(s)->Some_0 <= u64::MAX,
{
    if checked_total(s) is Some {
        lemma_sum_prefix_le(s, 0);
        assert(s.take(0) =~= Seq::<int>::empty());
    }
}

/// Sum of sizes read from metadata, or `None` when one is negative or the
/// sum does not fit in a `u64`.
pub fn checked_sum_i64(values: &Vec<i64>) -> (r: Option<u64>)
    ensures
        r == (match checked_total(ints_of_i64(values@)) {
            Some(t) => Some(t as u64),
            None => None::<u64>,
        }),
{
    let ghost s = ints_of_i64(values@);
    let mut acc: u64 = 0;
    let mut i: usize = 0;
    while i < values.len()
        invariant
            s == ints_of_i64(values@),
            i <= values@.len(),
            acc == sum_of(s.take(i as int)),
            forall|j: int| 0 <= j < i ==> s[j] >= 0,
        decreases values@.len() - i,
    {
        let v = values[i];
        assert(s.take(i + 1).drop_last() =~= s.take(i as int));
        if v < 0 {
            assert(s[i as int] < 0);
            return None;
        }
        if acc > u64::MAX - (v as u64) {
            proof {
                if forall|j: int| 0 <= j < s.len() ==> s[j] >= 0 {
                    lemma_sum_prefix_le(s, i + 1);
                }
            }
            return None;
        }
        acc = acc + v as u64;
        i = i + 1;
    }
    assert(s.take(s.len() as int) =~= s);
    Some(acc)
}

/// Sum of sizes, or `None` when the sum does not fit in a `u64`.
pub fn checked_sum_u64(values: &Vec<u64>) -> (r: Option<u64>)
    ensures
        r == (match checked_total(ints_of_u64(values@)) {
            Some(t) => Some(t as u64),
            None => None::<u64>,
        }),
{
    let ghost s = ints_of_u64(values@);
    let mut acc: u64 = 0;
    let mut i: usize = 0;
    while i < values.len()
        invariant
            s == ints_of_u64(values@),
            i <= values@.len(),
            acc == sum_of(s.take(i as int)),
            forall|j: int| 0 <= j < s.len() ==> s[j] >= 0,
        decreases values@.len() - i,
    {
        let v = values[i];
        assert(s.take(i + 1).drop_last() =~= s.take(i as int));
        if acc > u64::MAX - v {
            proof {
                lemma_sum_prefix_le(s, i + 1);
            }
            return None;
        }
        acc = acc + v;
        i = i + 1;
    }
    assert(s.take(s.len() as int) =~= s);
    Some(acc)
}

/// Total compressed size over all row groups.
pub fn compressed_size(row_groups: &Vec<RowGroupSummary>) -> (r: Option<u64>)
    ensures
        r == (match compressed_total(row_groups@) {
            Some(t) => Some(t as u64),
            None => None::<u64>,
        }),
{
    let mut per_group: Vec<u64> = Vec::new();
    let mut i: usize = 0;
    while i < row_groups.len()
        invariant
            i <= row_groups@.len(),
            per_group@.len() == i,
            forall|j: int| 0 <= j < i ==> row_group_compressed(#[trigger] row_groups@[j]) is Some,
            forall|j: int|
                0 <= j < i ==> per_group@[j] as int == row_group_compressed(#[trigger] row_groups@[j])->Some_0,
        decreases row_groups@.len() - i,
    {
        match checked_sum_i64(&row_groups[i].chunk_compressed_sizes) {
            Some(t) => {
                proof {
                    let c = checked_total(ints_of_i64(row_groups@[i as int].chunk_compressed_sizes@));
                    lemma_checked_total_bounds(ints_of_i64(row_groups@[i as int].chunk_compressed_sizes@));
                    assert(c is Some);
                    assert(0 <= c->Some_0 <= u64::MAX);
                    assert(t as int == row_group_compressed(row_groups@[i as int])->Some_0);
                }
                per_group.push(t);
            },
            None => {
                return None;
            },
        }
        i = i + 1;
    }
    let r = checked_sum_u64(&per_group);
    proof {
        let t = checked_total(ints_of_u64(per_group@));
        lemma_checked_total_bounds(ints_of_u64(per_group@));
        if t is Some {
            assert(0 <= t->Some_0 <= u64::MAX);
        }
    }
    assert(ints_of_u64(per_group@) =~= row_groups@.map_values(
        |rg: RowGroupSummary| row_group_compressed(rg)->Some_0,
    ));
    r
}

/// Total uncompressed size over all row groups.
pub fn uncompressed_size(row_groups: &Vec<RowGroupSummary>) -> (r: Option<u64>)
    ensures
        r == (match uncompressed_total(row_groups@) {
            Some(t) => Some(t as u64),
            None => None::<u64>,
        }),
{
    let mut sizes: Vec<i64> = Vec::new();
    let mut i: usize = 0;
    while i < row_groups.len()
        invariant
            i <= row_groups@.len(),
            sizes@.len() == i,
            forall|j: int| 0 <= j < i ==> sizes@[j] == row_groups@[j].uncompressed_size,
        decreases row_groups@.len() - i,
    {
        sizes.push(row_groups[i].uncompressed_size);
        i = i + 1;
    }
    let r = checked_sum_i64(&sizes);
    assert(ints_of_i64(sizes@) =~= row_groups@.map_values(|rg: RowGroupSummary| rg.uncompressed_size as int));
    r
}

/// `compressed / uncompressed` in parts per million, rounded down; `None`
/// when the uncompressed size is zero and the ratio is unknown.
pub fn compression_ratio_ppm(compressed: u64, uncompressed: u64) -> (r: Option<u128>)
    ensures
        r == (match ratio_ppm(compressed as int, uncompressed as int) {
            Some(v) => Some(v as u128),
            None => None::<u128>,
        }),
        r matches Some(v) ==> v == compressed as int * RATIO_SCALE / uncompressed as int,
{
    if uncompressed == 0 {
        None
    } else {
        assert(compressed as u128 * RATIO_SCALE <= u64::MAX as u128 * RATIO_SCALE) by (nonlinear_arith);
        let scaled: u128 = compressed as u128 * RATIO_SCALE;
        Some(scaled / uncompressed as u128)
    }
}

fn index_present_exec(loc: IndexLocation) -> (r: bool)
    ensures
        r == index_present(loc),
{
    match (loc.offset, loc.length) {
        (Some(_), Some(len)) => len > 0,
        _ => false,
    }
}

fn clone_fields(fields: &Vec<SchemaField>) -> (r: Vec<SchemaField>)
    ensures
        r@ == fields@,
{
    let mut out: Vec<SchemaField> = Vec::new();
    let mut i: usize = 0;
    while i < fields.len()
        invariant
            i <= fields@.len(),
            out@ == fields@.take(i as int),
        decreases fields@.len() - i,
    {
        let f = &fields[i];
        let name = f.name.clone();
        let data_type = f.data_type.clone();
        out.push(SchemaField { name, data_type });
        assert(out@ =~= fields@.take(i + 1));
        i = i + 1;
    }
    assert(fields@.take(fields@.len() as int) =~= fields@);
    out
}

impl DisplayInfo {
    /// Derives the display statistics from decoded metadata.
    ///
    /// Sizes are summed over all row groups; the feature flags are probed
    /// from the first column chunk of the first row group only.
    pub fn from_summary(summary: &MetadataSummary, metadata_len: u64) -> (r: Result<DisplayInfo, FormatError>)
        ensures
            summary_valid(*summary) ==> (r matches Ok(info) && info_of(info, *summary, metadata_len)),
            !summary_valid(*summary) ==> r == Err::<DisplayInfo, FormatError>(FormatError::InvalidCount),
    {
        let file_size = match compressed_size(&summary.row_groups) {
            Some(t) => t,
            None => {
                return Err(FormatError::InvalidCount);
            },
        };
        let uncompressed = match uncompressed_size(&summary.row_groups) {
            Some(t) => t,
            None => {
                return Err(FormatError::InvalidCount);
            },
        };
        if summary.num_rows < 0 {
            return Err(FormatError::InvalidCount);
        }
        let (has_row_group_stats, has_column_index, has_page_index, has_bloom_filter) = match summary.first_chunk {
            Some(c) => (
                c.has_statistics,
                index_present_exec(c.column_index),
                index_present_exec(c.offset_index),
                c.bloom_filter_offset.is_some(),
            ),
            None => (false, false, false, false),
        };
        let ratio = compression_ratio_ppm(file_size, uncompressed);
        let schema = clone_fields(&summary.fields);
        proof {
            let c = compressed_total(summary.row_groups@);
            let u = uncompressed_total(summary.row_groups@);
            assert(c is Some && u is Some);
            lemma_checked_total_bounds(
                summary.row_groups@.map_values(|rg: RowGroupSummary| row_group_compressed(rg)->Some_0),
            );
            lemma_checked_total_bounds(
                summary.row_groups@.map_values(|rg: RowGroupSummary| rg.uncompressed_size as int),
            );
            assert(0 <= c->Some_0 <= u64::MAX);
            assert(0 <= u->Some_0 <= u64::MAX);
            assert(file_size == c->Some_0);
            assert(uncompressed == u->Some_0);
        }
        Ok(
            DisplayInfo {
                file_size,
                uncompressed_size: uncompressed,
                compression_ratio_ppm: ratio,
                row_group_count: summary.row_groups.len() as u64,
                row_count: summary.num_rows as u64,
                columns: summary.fields.len() as u64,
                has_row_group_stats,
                has_column_index,
                has_page_index,
                has_bloom_filter,
                schema,
                metadata_len,
            },
        )
    }
}

/// Equal compressed and uncompressed sizes give a ratio of exactly one, and
/// an uncompressed size of zero gives the unknown ratio.
pub proof fn lemma_ratio_edge_cases(compressed: u64, uncompressed: u64)
    ensures
        compressed == uncompressed && uncompressed > 0 ==> ratio_ppm(compressed as int, uncompressed as int)
            == Some(RATIO_SCALE as int),
        uncompressed == 0 ==> ratio_ppm(compressed as int, uncompressed as int) is None,
{
    if compressed == uncompressed && uncompressed > 0 {
        let u = uncompressed as int;
        assert(u * RATIO_SCALE / u == RATIO_SCALE) by (nonlinear_arith)
            requires
                u > 0,
        ;
    }
}

} // verus!
