//! The run's fatal error taxonomy.
//!
//! A test failure reported by the oracle is not here: it is recoverable and
//! only drives the state machine's branching. Everything below aborts the
//! whole run.

use vstd::prelude::*;

verus! {

/// A condition that aborts the whole run.
#[derive(Debug, Clone, Copy, PartialEq, Eq, Structural)]
pub enum RunError {
    /// The configured set of target directories is empty: a configuration
    /// error of warning severity, checked before any file processing.
    EmptyTargetSet,
    /// The repository root does not exist.
    MissingRepoRoot,
    /// A configured target directory does not exist under the root.
    MissingTargetDirectory,
    /// The test driver executable is unreachable, checked once up front.
    ToolingUnavailable,
    /// The sanity check failed: the unmodified file already fails, so every
    /// downstream signal would be meaningless.
    BaselineFailure,
    /// An oracle invocation could not be completed as intended.
    ToolingFailure,
    /// A file holds more than one ignore-form directive line, or the
    /// replacement form alongside one.
    DirectiveAnomaly,
    /// The report document could not be written; prior mutations stay.
    ReportWriteFailure,
}

impl RunError {
    /// Warning-severity errors are configuration slips, not hard faults.
    pub fn is_warning(&self) -> (r: bool)
        ensures
            r <==> *self is EmptyTargetSet,
    {
        matches!(self, RunError::EmptyTargetSet)
    }

    /// A human-readable description of the error.
    pub fn message(&self) -> (r: &'static str) {
        match self {
            RunError::EmptyTargetSet => "no target directories specified, exiting",
            RunError::MissingRepoRoot => "repository root does not exist, please check your path",
            RunError::MissingTargetDirectory => "a target directory does not exist under the repository root",
            RunError::ToolingUnavailable => "could not detect the test driver, did you provide a correct repository path?",
            RunError::BaselineFailure => "a file fails its test before any modification; aborting the run",
            RunError::ToolingFailure => "error while trying to invoke the test driver",
            RunError::DirectiveAnomaly => "a file holds conflicting or repeated directive lines; aborting the run",
            RunError::ReportWriteFailure => "failed to write the report",
        }
    }
}

} // verus!
