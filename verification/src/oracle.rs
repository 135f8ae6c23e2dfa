//! Classification of an oracle invocation's result.
//!
//! The external test runner is invoked once per phase on a single file; its
//! exit is reduced to three signals: the test passed, the test failed, or the
//! invocation itself could not be completed (which is fatal to the run).

use vstd::prelude::*;

verus! {

/// The oracle's verdict for one invocation on one file.
#[derive(Debug, Clone, Copy, PartialEq, Eq, Structural)]
pub enum OracleResponse {
    /// The driver exited indicating success.
    Pass,
    /// The driver ran and reported a test failure: recoverable, it only
    /// drives the state machine's branching.
    Fail,
    /// The invocation could not be completed as intended: fatal to the run.
    ToolingError,
}

/// Classifies the exit of one driver invocation.
///
/// `launched` says whether a process was spawned and waited on at all;
/// `code` is its exit code, absent when the process ended without one.
/// Exit code `0` is a pass, any other exit code is a test failure, and
/// everything else (launch failure, no exit code) is a tooling error.
pub fn classify_exit(launched: bool, code: Option<i32>) -> (r: OracleResponse)
    ensures
        r is Pass <==> launched && code == Some(0i32),
        r is Fail <==> launched && (code matches Some(c) && c != 0),
        r is ToolingError <==> !launched || code is None,
{
    if launched {
        match code {
            Some(c) => {
                if c == 0 {
                    OracleResponse::Pass
                } else {
                    OracleResponse::Fail
                }
            },
            None => OracleResponse::ToolingError,
        }
    } else {
        OracleResponse::ToolingError
    }
}

} // verus!
