//! Indexing and range lookup over large line-oriented log files.
//!
//! The verified core: inclusive byte/line ranges, the slot map that lets a
//! line range be resolved to one bounded byte region, the text slot builder,
//! the chunk factory and progress reporter of an indexing run, and the
//! decisions of the DLT producer, indexer, statistics scanner and exporter.
use vstd::prelude::*;

pub mod chunks;
pub mod dlt_decoder;
pub mod dlt_file;
pub mod grabber;
pub mod partition;
pub mod progress;
pub mod range;
pub mod statistics;
pub mod text_source;

verus! {

} // verus!
