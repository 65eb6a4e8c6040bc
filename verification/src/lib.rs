//! Columnar storage engine: variable-length integer coding, the on-disk
//! column file format, table schemas, query planning and execution, and the
//! answers of the query interface.
pub mod vle;
pub mod be_bytes;
pub mod format;
pub mod column_file;
pub mod column_encode;
pub mod column_stats;
pub mod schema;
pub mod schema_manager;
pub mod models;
pub mod query;
pub mod query_id;
pub mod executor;
pub mod api;
