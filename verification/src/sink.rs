use vstd::prelude::*;

verus! {

/// The default byte budget of one ingest request body.
pub const DEFAULT_MAX_BODY_SIZE: usize = 5_000_000;

/// Final index statistics read back from an engine: indexed document
/// count, count of storage units (segments, splits or chunks), and the
/// on-disk or billed byte size.
pub struct IndexInfo {
    pub num_docs: u64,
    pub num_splits: u64,
    pub num_bytes: u64,
}

/// Build and version information read back from an engine; a field the
/// engine does not supply is the empty string.
pub struct BuildInfo {
    pub version: String,
    pub commit_date: String,
    pub commit_hash: String,
    pub build_target: String,
}

/// A field that an adapter needs was missing from an engine response, or
/// held the wrong kind of value.
#[derive(Debug, Clone, Copy, PartialEq, Eq, Structural)]
pub struct ResponseFieldError;

/// Declared adapter for the Parseable engine, without an implementation:
/// the program refuses the engine at startup.
pub struct ParseableSink {}

/// Declared adapter for the ZincObserve engine, without an implementation:
/// the program refuses the engine at startup.
pub struct ZincSink {}

} // verus!
