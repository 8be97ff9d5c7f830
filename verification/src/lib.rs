//! Normalizer for JSON-lines audit/trace streams.
//!
//! The input is UTF-8 text, one JSON record per line, possibly wrapped in a
//! top-level array split across lines.  The library repairs that framing,
//! groups records into bounded batches, applies two field-normalization
//! rules to each record (host defaulting and mmap sharing-flag inference),
//! and re-emits the stream as clean JSON lines.  A line that fails to parse
//! or whose fields have an unexpected shape is reported and dropped; it
//! never aborts the run.

pub mod batching;
pub mod framing;
pub mod json;
pub mod pipeline;
pub mod record;
pub mod rules;
