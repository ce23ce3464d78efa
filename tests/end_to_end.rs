use std::sync::Arc;

use arrow_array::{ArrayRef, Int64Array, RecordBatch, StringArray};
use arrow_schema::{DataType, Field, Schema};
use datafusion::physical_plan::{collect, displayable, ExecutionPlan};
use datafusion::prelude::{ParquetReadOptions, SessionContext};
use object_store::memory::InMemory;
use object_store::path::Path;
use object_store::{ObjectStore, PutPayload};
use parquet::arrow::ArrowWriter;
use parquet::file::properties::WriterProperties;
use parquet::schema::types::ColumnPath;

use parquet_viewer::locator::read_from_memory;
use parquet_viewer::plan_tree::{build_plan_tree, PlanNode, PlanSource};
use parquet_viewer::query::{default_query, SessionCatalog};
use parquet::arrow::parquet_to_arrow_schema;
use parquet::file::metadata::{ColumnChunkMetaData, ParquetMetaDataReader};
use parquet_viewer::parquet_meta::{ChunkSummary, IndexLocation, MetadataSummary, RowGroupSummary, SchemaField};
use parquet_viewer::reader::{metadata_payload, ParquetFileReader, ParquetTable};

fn three_group_file() -> Vec<u8> {
    let schema = Arc::new(Schema::new(vec![
        Field::new("id", DataType::Int64, false),
        Field::new("name", DataType::Utf8, true),
    ]));
    let props = WriterProperties::builder()
        .set_column_bloom_filter_enabled(ColumnPath::from("id"), true)
        .build();
    let mut buf = Vec::new();
    let mut writer = ArrowWriter::try_new(&mut buf, schema.clone(), Some(props)).unwrap();
    for g in 0..3i64 {
        let ids: Vec<i64> = (0..8).map(|r| g * 8 + r).collect();
        let names: Vec<String> = ids.iter().map(|i| format!("n{}", i)).collect();
        let columns: Vec<ArrayRef> = vec![Arc::new(Int64Array::from(ids)), Arc::new(StringArray::from(names))];
        writer.write(&RecordBatch::try_new(schema.clone(), columns).unwrap()).unwrap();
        writer.flush().unwrap();
    }
    writer.close().unwrap();
    buf
}

/// Decodes a metadata payload with the parquet crate and reads the plain
/// values that the library works on.
fn decoded_summary(payload: &[u8]) -> MetadataSummary {
    let md = ParquetMetaDataReader::decode_metadata(payload).unwrap();
    let fm = md.file_metadata();
    let schema = parquet_to_arrow_schema(fm.schema_descr(), fm.key_value_metadata()).unwrap();
    let chunk = |c: &ColumnChunkMetaData| ChunkSummary {
        has_statistics: c.statistics().is_some(),
        bloom_filter_offset: c.bloom_filter_offset(),
        column_index: IndexLocation { offset: c.column_index_offset(), length: c.column_index_length() },
        offset_index: IndexLocation { offset: c.offset_index_offset(), length: c.offset_index_length() },
    };
    MetadataSummary {
        row_groups: md
            .row_groups()
            .iter()
            .map(|rg| RowGroupSummary {
                chunk_compressed_sizes: rg.columns().iter().map(|c| c.compressed_size()).collect(),
                uncompressed_size: rg.total_byte_size(),
                num_rows: rg.num_rows(),
            })
            .collect(),
        num_rows: fm.num_rows(),
        first_chunk: md.row_groups().first().and_then(|rg| rg.columns().first()).map(chunk),
        fields: schema
            .fields()
            .iter()
            .map(|f| SchemaField { name: f.name().clone(), data_type: f.data_type().to_string() })
            .collect(),
    }
}

fn plan_source(plan: &Arc<dyn ExecutionPlan>) -> PlanSource {
    PlanSource {
        name: plan.name().to_string(),
        label: displayable(plan.as_ref()).one_line().to_string().trim_end().to_string(),
        metrics: plan
            .metrics()
            .map(|m| m.aggregate_by_name().sorted_for_display().timestamps_removed().to_string()),
        children: plan.children().into_iter().map(plan_source).collect(),
    }
}

fn names(n: &PlanNode) -> String {
    let inner: Vec<String> = n.children.iter().map(names).collect();
    format!("{}({})", n.name, inner.join(","))
}

fn leaves<'a>(n: &'a PlanNode, out: &mut Vec<&'a PlanNode>) {
    if n.children.is_empty() {
        out.push(n);
    }
    for c in &n.children {
        leaves(c, out);
    }
}

fn run(ctx: &SessionContext, sql: &str) -> (Vec<RecordBatch>, Arc<dyn ExecutionPlan>) {
    let rt = tokio::runtime::Runtime::new().unwrap();
    rt.block_on(async {
        let df = ctx.sql(sql).await.unwrap();
        let plan = df.create_physical_plan().await.unwrap();
        let batches = collect(plan.clone(), ctx.task_ctx()).await.unwrap();
        (batches, plan)
    })
}

fn register(bytes: Vec<u8>) -> SessionContext {
    let info = read_from_memory("t").unwrap();
    let store = Arc::new(InMemory::new());
    let rt = tokio::runtime::Runtime::new().unwrap();
    let ctx = SessionContext::new();
    let mut catalog = SessionCatalog::new();
    rt.block_on(async {
        store.put(&Path::from(info.path.as_str()), PutPayload::from(bytes)).await.unwrap();
        let url = url::Url::parse(&info.object_store_url).unwrap();
        if catalog.register_store(&info.object_store_url) {
            ctx.register_object_store(&url, store.clone());
        }
        ctx.register_parquet("t", &info.table_path(), ParquetReadOptions::default().file_extension(""))
            .await
            .unwrap();
        catalog.register_table(&info.table_name);
    });
    ctx
}

#[test]
fn end_to_end_default_query_over_three_row_groups() {
    let bytes = three_group_file();
    let payload = metadata_payload(&bytes).unwrap();
    let table = ParquetTable {
        table_name: "t".to_string(),
        summary: decoded_summary(payload),
        metadata_len: payload.len() as u64,
    };
    let reader = ParquetFileReader::new(table).unwrap();
    let info = reader.info();
    assert!(info.has_bloom_filter);
    assert_eq!(info.row_group_count, 3);
    assert_eq!(info.columns, 2);

    let ctx = register(bytes);
    let (batches, _plan) = run(&ctx, &default_query(reader.table_name()));
    let rows: usize = batches.iter().map(|b| b.num_rows()).sum();
    assert!(rows > 0);
    assert!(rows <= 10);
}

#[test]
fn plan_tree_of_default_query() {
    let ctx = register(three_group_file());
    let sql = default_query("t");
    let (_, plan) = run(&ctx, &sql);
    let root = build_plan_tree(&plan_source(&plan));
    assert_eq!(root.id, 0);
    let mut found = Vec::new();
    leaves(&root, &mut found);
    assert!(!found.is_empty());
    assert!(found.iter().any(|l| l.label.contains("parquet") || l.name.contains("Parquet") || l.name.contains("DataSource")));

    let (_, again) = run(&ctx, &sql);
    assert_eq!(names(&build_plan_tree(&plan_source(&again))), names(&root));
}
