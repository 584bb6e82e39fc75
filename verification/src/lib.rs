//! Verified core of a parallel Oracle export toolkit: pipeline configuration,
//! per-reader SQL partitioning, row batching, insert retry policy, and the
//! work/file plan of the Parquet exporter.

pub mod config;
pub mod text;
pub mod sql;
pub mod batching;
pub mod writer;
pub mod export;
pub mod messages;
