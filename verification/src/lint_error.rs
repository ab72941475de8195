//! The error taxonomy of the pipeline.

use vstd::prelude::*;

verus! {

/// What can go wrong along the pipeline.
///
/// Parse and per-item failures are recovered locally; invocation and API
/// failures propagate to the run's overall result.
#[derive(Debug, PartialEq, Eq, Structural, Clone, Copy)]
pub enum LintError {
    /// One file segment of the diff was unparsable; the file is skipped.
    DiffParseFailure,
    /// A tool reported a byte offset outside the file's bounds.
    InvalidOffset,
    /// The external tool's binary is missing or not executable.
    ToolInvocationFailure,
    /// The external tool ran but signalled issues through its exit code.
    ToolNonZeroExit,
    /// Authentication, rate-limit or network failure while talking to the
    /// platform's REST API.
    ApiFailure,
}

} // verus!
