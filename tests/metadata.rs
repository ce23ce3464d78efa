use std::sync::Arc;

use arrow_array::{ArrayRef, Int64Array, RecordBatch, StringArray};
use arrow_schema::{DataType, Field, Schema};
use parquet::arrow::ArrowWriter;
use parquet::file::properties::WriterProperties;
use parquet::schema::types::ColumnPath;

use parquet_viewer::display_info::{compression_ratio_ppm, DisplayInfo, RATIO_SCALE};
use parquet_viewer::error::FormatError;
use parquet_viewer::footer::{decode_footer, footer_range, locate_metadata, metadata_range};
use parquet::arrow::parquet_to_arrow_schema;
use parquet::file::metadata::{ColumnChunkMetaData, ParquetMetaDataReader};
use parquet_viewer::parquet_meta::{ChunkSummary, IndexLocation, MetadataSummary, RowGroupSummary, SchemaField};
use parquet_viewer::range_cache::ByteRange;
use parquet_viewer::reader::{metadata_payload, ParquetFileReader, ParquetTable};

/// Writes a file with `groups` row groups of `rows_per_group` rows and the
/// columns `id` (Int64) and `name` (Utf8), with a bloom filter on `id` only.
fn write_file(groups: usize, rows_per_group: usize) -> Vec<u8> {
    let schema = Arc::new(Schema::new(vec![
        Field::new("id", DataType::Int64, false),
        Field::new("name", DataType::Utf8, true),
    ]));
    let props = WriterProperties::builder()
        .set_column_bloom_filter_enabled(ColumnPath::from("id"), true)
        .build();
    let mut buf = Vec::new();
    let mut writer = ArrowWriter::try_new(&mut buf, schema.clone(), Some(props)).unwrap();
    for g in 0..groups {
        let ids: Vec<i64> = (0..rows_per_group).map(|r| (g * rows_per_group + r) as i64).collect();
        let names: Vec<String> = ids.iter().map(|i| format!("row{}", i)).collect();
        let columns: Vec<ArrayRef> = vec![
            Arc::new(Int64Array::from(ids)),
            Arc::new(StringArray::from(names)),
        ];
        let batch = RecordBatch::try_new(schema.clone(), columns).unwrap();
        writer.write(&batch).unwrap();
        writer.flush().unwrap();
    }
    writer.close().unwrap();
    buf
}


/// Decodes a metadata payload with the parquet crate and reads the plain
/// values that the library works on.
fn summary_of_payload(payload: &[u8]) -> MetadataSummary {
    let md = ParquetMetaDataReader::decode_metadata(payload).unwrap();
    let fm = md.file_metadata();
    let schema = parquet_to_arrow_schema(fm.schema_descr(), fm.key_value_metadata()).unwrap();
    let chunk = |c: &ColumnChunkMetaData| ChunkSummary {
        has_statistics: c.statistics().is_some(),
        bloom_filter_offset: c.bloom_filter_offset(),
        column_index: IndexLocation { offset: c.column_index_offset(), length: c.column_index_length() },
        offset_index: IndexLocation { offset: c.offset_index_offset(), length: c.offset_index_length() },
    };
    MetadataSummary {
        row_groups: md
            .row_groups()
            .iter()
            .map(|rg| RowGroupSummary {
                chunk_compressed_sizes: rg.columns().iter().map(|c| c.compressed_size()).collect(),
                uncompressed_size: rg.total_byte_size(),
                num_rows: rg.num_rows(),
            })
            .collect(),
        num_rows: fm.num_rows(),
        first_chunk: md.row_groups().first().and_then(|rg| rg.columns().first()).map(chunk),
        fields: schema
            .fields()
            .iter()
            .map(|f| SchemaField { name: f.name().clone(), data_type: f.data_type().to_string() })
            .collect(),
    }
}

fn table_of(name: &str, bytes: &[u8]) -> ParquetTable {
    let payload = metadata_payload(bytes).unwrap();
    ParquetTable {
        table_name: name.to_string(),
        summary: summary_of_payload(payload),
        metadata_len: payload.len() as u64,
    }
}

fn load(name: &str, bytes: &[u8]) -> ParquetFileReader {
    ParquetFileReader::new(table_of(name, bytes)).unwrap()
}

#[test]
fn footer_of_valid_tail_gives_metadata_length() {
    let tail = [0x10u8, 0x02, 0x00, 0x00, b'P', b'A', b'R', b'1'];
    assert_eq!(decode_footer(&tail), Ok(0x0210));
}

#[test]
fn footer_reads_only_the_last_eight_bytes() {
    let mut bytes = vec![9u8; 20];
    bytes.extend_from_slice(&[1, 0, 0, 1, b'P', b'A', b'R', b'1']);
    assert_eq!(decode_footer(&bytes), Ok(16_777_217));
}

#[test]
fn footer_with_bad_magic_is_format_error() {
    let tail = [4u8, 0, 0, 0, b'P', b'A', b'R', b'E'];
    assert_eq!(decode_footer(&tail), Err(FormatError::BadMagic));
}

#[test]
fn file_truncated_to_four_bytes_is_format_error() {
    let bytes = write_file(1, 3);
    let truncated = &bytes[..4];
    assert_eq!(decode_footer(truncated), Err(FormatError::Truncated { len: 4 }));
    assert!(matches!(metadata_payload(truncated), Err(FormatError::Truncated { len: 4 })));
}

#[test]
fn empty_object_is_truncated() {
    assert_eq!(footer_range(0), Err(FormatError::Truncated { len: 0 }));
    assert_eq!(footer_range(7), Err(FormatError::Truncated { len: 7 }));
    assert_eq!(footer_range(100), Ok(ByteRange { start: 92, end: 100 }));
}

#[test]
fn metadata_range_lies_before_footer() {
    assert_eq!(metadata_range(100, 20), Ok(ByteRange { start: 72, end: 92 }));
    assert_eq!(metadata_range(28, 20), Ok(ByteRange { start: 0, end: 20 }));
    assert_eq!(
        metadata_range(27, 20),
        Err(FormatError::MetadataOutOfRange { metadata_len: 20, file_len: 27 })
    );
}

#[test]
fn locate_metadata_of_written_file() {
    let bytes = write_file(2, 4);
    let n = bytes.len();
    let range = locate_metadata(n, &bytes[n - 8..]).unwrap();
    assert_eq!(range.end, n - 8);
    assert!(range.start < range.end);
    assert_eq!(metadata_payload(&bytes).unwrap(), &bytes[range.start..range.end]);
    assert_eq!(summary_of_payload(&bytes[range.start..range.end]).row_groups.len(), 2);
}

#[test]
fn payload_beyond_object_is_format_error() {
    let mut bytes = vec![0u8; 4];
    bytes.extend_from_slice(&[16, 0, 0, 0, b'P', b'A', b'R', b'1']);
    assert_eq!(
        metadata_payload(&bytes),
        Err(FormatError::MetadataOutOfRange { metadata_len: 16, file_len: 12 })
    );
}

#[test]
fn round_trip_counts_row_groups_and_columns() {
    for groups in 1..=4 {
        let bytes = write_file(groups, 5);
        let reader = load("t.parquet", &bytes);
        let info = reader.info();
        assert_eq!(info.row_group_count, groups as u64);
        assert_eq!(info.columns, 2);
        assert_eq!(info.row_count, 5 * groups as u64);
    }
}

#[test]
fn minimal_file_recovers_rows_and_schema() {
    let bytes = write_file(1, 1);
    let reader = load("one.parquet", &bytes);
    let info = reader.info();
    assert_eq!(reader.table_name(), "one.parquet");
    assert_eq!(info.row_count, 1);
    assert_eq!(
        info.schema,
        vec![
            SchemaField { name: "id".to_string(), data_type: "Int64".to_string() },
            SchemaField { name: "name".to_string(), data_type: "Utf8".to_string() },
        ]
    );
    let n = bytes.len() as u64;
    let announced = u32::from_le_bytes(bytes[bytes.len() - 8..bytes.len() - 4].try_into().unwrap());
    assert_eq!(info.metadata_len, announced as u64);
    assert!(info.metadata_len < n);
}

#[test]
fn bloom_filter_on_first_column_is_reported() {
    let bytes = write_file(3, 4);
    let info = load("t", &bytes).info().clone();
    assert!(info.has_bloom_filter);
    assert_eq!(info.row_group_count, 3);
    assert_eq!(info.columns, 2);
    assert!(info.has_row_group_stats);
    assert!(info.has_page_index);
    assert!(info.file_size > 0);
    assert!(info.uncompressed_size > 0);
}

fn summary(sizes: Vec<Vec<i64>>, uncompressed: Vec<i64>, first: Option<ChunkSummary>) -> MetadataSummary {
    MetadataSummary {
        row_groups: sizes
            .into_iter()
            .zip(uncompressed)
            .map(|(s, u)| RowGroupSummary { chunk_compressed_sizes: s, uncompressed_size: u, num_rows: 1 })
            .collect(),
        num_rows: 7,
        first_chunk: first,
        fields: vec![SchemaField { name: "a".to_string(), data_type: "Int32".to_string() }],
    }
}

#[test]
fn sizes_are_summed_over_row_groups_and_chunks() {
    let s = summary(vec![vec![10, 20], vec![30]], vec![100, 50], None);
    let info = DisplayInfo::from_summary(&s, 42).unwrap();
    assert_eq!(info.file_size, 60);
    assert_eq!(info.uncompressed_size, 150);
    assert_eq!(info.compression_ratio_ppm, Some(400_000));
    assert_eq!(info.row_group_count, 2);
    assert_eq!(info.row_count, 7);
    assert_eq!(info.columns, 1);
    assert_eq!(info.metadata_len, 42);
    assert!(!info.has_bloom_filter && !info.has_column_index && !info.has_page_index);
    assert!(!info.has_row_group_stats);
}

#[test]
fn feature_flags_come_from_first_chunk() {
    let chunk = ChunkSummary {
        has_statistics: true,
        bloom_filter_offset: Some(4),
        column_index: IndexLocation { offset: Some(100), length: Some(0) },
        offset_index: IndexLocation { offset: Some(200), length: Some(12) },
    };
    let s = summary(vec![vec![1]], vec![1], Some(chunk));
    let info = DisplayInfo::from_summary(&s, 0).unwrap();
    assert!(info.has_row_group_stats);
    assert!(info.has_bloom_filter);
    assert!(!info.has_column_index);
    assert!(info.has_page_index);
}

#[test]
fn negative_size_is_invalid_count() {
    let s = summary(vec![vec![10, -1]], vec![5], None);
    assert_eq!(DisplayInfo::from_summary(&s, 0), Err(FormatError::InvalidCount));
    let s = summary(vec![vec![10]], vec![-5], None);
    assert_eq!(DisplayInfo::from_summary(&s, 0), Err(FormatError::InvalidCount));
}

#[test]
fn oversized_total_is_invalid_count() {
    let s = summary(vec![vec![i64::MAX, i64::MAX], vec![i64::MAX]], vec![1, 1], None);
    assert_eq!(DisplayInfo::from_summary(&s, 0), Err(FormatError::InvalidCount));
}

#[test]
fn ratio_of_equal_sizes_is_one() {
    assert_eq!(compression_ratio_ppm(4096, 4096), Some(RATIO_SCALE));
    assert_eq!(compression_ratio_ppm(1, 1), Some(1_000_000));
}

#[test]
fn ratio_without_uncompressed_size_is_unknown() {
    assert_eq!(compression_ratio_ppm(0, 0), None);
    assert_eq!(compression_ratio_ppm(123, 0), None);
    let s = summary(vec![vec![0]], vec![0], None);
    assert_eq!(DisplayInfo::from_summary(&s, 0).unwrap().compression_ratio_ppm, None);
}

#[test]
fn ratio_rounds_down() {
    assert_eq!(compression_ratio_ppm(1, 3), Some(333_333));
    assert_eq!(compression_ratio_ppm(u64::MAX, 1), Some(u64::MAX as u128 * 1_000_000));
}

#[test]
fn tables_are_equal_by_name() {
    let a = table_of("t", &write_file(1, 2));
    let b = table_of("t", &write_file(2, 2));
    let c = table_of("u", &write_file(1, 2));
    assert!(a == b);
    assert!(a != c);
}

#[test]
fn reader_rejects_invalid_summary() {
    let mut table = table_of("t", &write_file(1, 2));
    table.summary.num_rows = -1;
    assert!(matches!(ParquetFileReader::new(table), Err(FormatError::InvalidCount)));
}
