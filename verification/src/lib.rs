//! Metadata, import and query logic for a quantized vector index with a SQLite sidecar.
pub mod text;
pub mod json;
pub mod filter;
pub mod sql_query;
pub mod import;
pub mod config;
pub mod sidecar;
pub mod commands;
