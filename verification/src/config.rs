//! Run configuration: the directories to scan.

use vstd::prelude::*;

use crate::errors::RunError;

verus! {

/// The run's configuration, supplied by the caller: the test directories to
/// perform the attempted directive reduction for, as paths relative to the
/// repository root.
pub struct Config {
    /// The repository-relative target directories.
    pub target_directories: Vec<Vec<u8>>,
}

impl Default for Config {
    /// The default configuration names no target directories.
    fn default() -> (c: Config)
        ensures
            c.target_directories@.len() == 0,
    {
        Config { target_directories: Vec::new() }
    }
}

/// Checks the configuration before any file processing: an empty target set
/// is a configuration error — of warning severity — rather than a silent run
/// over zero files.
pub fn validate_config(config: &Config) -> (r: Result<(), RunError>)
    ensures
        (r is Ok) <==> config.target_directories@.len() > 0,
        (r matches Err(e) ==> e is EmptyTargetSet),
{
    if config.target_directories.len() == 0 {
        Err(RunError::EmptyTargetSet)
    } else {
        Ok(())
    }
}

} // verus!
