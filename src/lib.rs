//! An embedded store for execution logs: deterministic identities, dedup-safe
//! ingestion, keyset pagination, token search and time-based retention.

pub mod commands;
pub mod log_id;
pub mod mcp;
pub mod models;
pub mod normalize;
pub mod query;
pub mod retention;
pub mod search;
pub mod store;
pub mod text;
pub mod tokens;
