//! The command-line surface's decisions: the `run` sub-command and the exit
//! code the process ends with. Argument parsing, signal handling and the
//! runtime live outside the library.

use vstd::prelude::*;

verus! {

/// The `run` sub-command: start and run a proxy.
#[derive(Clone, Copy, Debug, PartialEq, Eq, Structural)]
pub struct Run {}

/// How a run ended, when it did not end well.
#[derive(Clone, Copy, Debug, PartialEq, Eq, Structural)]
pub enum RunError {
    /// The configuration was refused at startup.
    Config,
    /// The proxy gave up while running.
    Runtime,
}

/// The process exit code: 0 for a graceful shutdown, 1 for a configuration
/// error, 2 for a runtime error.
pub fn exit_code(outcome: &Option<RunError>) -> (r: i32)
    ensures
        *outcome is None ==> r == 0,
        *outcome == Some(RunError::Config) ==> r == 1,
        *outcome == Some(RunError::Runtime) ==> r == 2,
{
    match outcome {
        None => 0,
        Some(RunError::Config) => 1,
        Some(RunError::Runtime) => 2,
    }
}

} // verus!
