//! Remote and in-memory Parquet access: a byte-range cache for object stores,
//! footer and metadata decoding with derived display statistics, query
//! bookkeeping and a physical-plan tree builder.

pub mod error;
pub mod footer;
pub mod range_cache;
pub mod parquet_meta;
pub mod display_info;
pub mod reader;
pub mod text;
pub mod locator;
pub mod query;
pub mod plan_tree;
