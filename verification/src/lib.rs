//! Core logic of a task-management terminal frontend: a filter-query
//! interpreter, an attribute-formatting and table-simplification engine,
//! command construction for the shell-invoked task tool, and a TTL-bound
//! cache answering whether a task is being tracked externally.

use vstd::prelude::*;

pub mod backend;
pub mod filter;
pub mod help;
pub mod task;
pub mod task_report;
pub mod text;
pub mod timewarrior;
pub mod utils;

verus! {

/// Why an operation against a task store or a report failed.
///
/// Everything except best-effort degradations (which callers absorb
/// silently) surfaces through this type, carrying enough context to
/// diagnose the failure: the offending diagnostic text or report name.
#[derive(Clone, Debug)]
pub enum TaskError {
    /// The external task tool exited non-zero; carries its diagnostic
    /// output verbatim.  Never retried.
    ExternalProcessFailure { diagnostic: String },
    /// A fetched record could not be mapped to the unified record;
    /// aborts the whole export.
    RecordConversionFailure { cause: String },
    /// A report's column and label lists differ in length; names the
    /// offending report and both counts.
    ConfigurationMismatch { report: String, columns: usize, labels: usize },
    /// The embedded store failed an I/O or transaction step.
    StorageFailure { cause: String },
    /// The task tool's probed version string could not be parsed; a
    /// fatal startup error carrying the probed line.
    VersionParseFailure { line: String },
}

} // verus!
