//! Census-dump ingestion and update-time estimation.
//!
//! The library parses a compressed XML census dump into an ordered sequence
//! of region records while threading a running population total, estimates
//! each region's predicted update time inside two configurable windows,
//! classifies regions against two externally supplied membership lists, and
//! assembles the rows of a tabular report. All I/O (network, files, the
//! spreadsheet sink) lives outside this crate; the library works on plain
//! values.

use vstd::prelude::*;

pub mod classify;
pub mod date;
pub mod decode;
pub mod estimator;
pub mod laws;
pub mod numbers;
pub mod parser;
pub mod region;
pub mod report;
pub mod text;
pub mod xml;

verus! {

/// The failures that abort a run.
#[derive(Clone, Copy, Debug, PartialEq, Eq, Structural)]
pub enum DumpError {
    /// The document is not well-formed XML, a numeric field does not parse,
    /// or a running total leaves the representable range. Carries the byte
    /// offset the reader had reached.
    MalformedInput { offset: u64 },
    /// The region list is empty or the total population is unusable.
    MissingAggregate,
    /// The sub-second precision is outside the supported range.
    InvalidConfiguration,
}

} // verus!
