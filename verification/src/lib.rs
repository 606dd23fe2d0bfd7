//! Core logic of an indexing-throughput benchmark harness for log/search
//! engines.
//!
//! The crate holds the verified parts of the pipeline: URI range expansion,
//! line-aligned batching of newline-delimited JSON under a byte budget,
//! batch assembly with the terminal-batch flag, ingestion accounting, the
//! retry policy, and the payload builders and response readers for the
//! Quickwit, Elasticsearch/OpenSearch and Loki adapters. The surrounding
//! program (argument handling, HTTP and file I/O, the async plumbing) lives
//! outside and calls into these functions with plain values.

pub mod batch;
pub mod driver;
pub mod elasticsearch;
pub mod engine;
pub mod expand;
pub mod json;
pub mod lines;
pub mod loki;
pub mod metrics;
pub mod quickwit;
pub mod sink;
pub mod source;
pub mod text;
