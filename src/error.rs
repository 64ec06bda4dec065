//! Errors of loading a configuration and of running it.

use vstd::prelude::*;

verus! {

/// What can go wrong, from loading a configuration to the end of a run.
#[derive(Debug, Clone, PartialEq, Eq)]
pub enum RunnerError {
    /// A file could not be read or a shell could not be started.
    Io(String),
    /// The configuration text is not a valid document.
    Yaml(String),
    /// The configuration breaks a structural rule, such as a reserved block name.
    Constraints(String),
    /// A step failed and the execution policy in force aborted the run.
    CmdFailed(String),
    /// A step referred to a block that the configuration does not define.
    BlockNotFound(String),
    /// Every failure that a carry-forward policy recorded, in the order they happened.
    Failures(Vec<String>),
}

} // verus!
