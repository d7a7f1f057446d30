//! The exit status of a line forwarded to the system shell.
use vstd::prelude::*;

verus! {

/// How running a command through `sh -c` went.
pub enum ProcessOutcome {
    /// The shell could not be started.
    SpawnFailed,
    /// Waiting for the shell failed.
    WaitFailed,
    /// The shell finished, with its exit code when it has one (none when a signal
    /// ended it).
    Exited(Option<i32>),
}

/// The status the prompt shows afterwards: 127 when the shell could not start, 1 when
/// waiting failed, the exit code, or 0 when a signal ended the process.
pub fn exit_code(outcome: &ProcessOutcome) -> (r: i32)
    ensures
        r == match outcome {
            ProcessOutcome::SpawnFailed => 127,
            ProcessOutcome::WaitFailed => 1,
            ProcessOutcome::Exited(Some(c)) => *c,
            ProcessOutcome::Exited(None) => 0,
        },
{
    match outcome {
        ProcessOutcome::SpawnFailed => 127,
        ProcessOutcome::WaitFailed => 1,
        ProcessOutcome::Exited(Some(c)) => *c,
        ProcessOutcome::Exited(None) => 0,
    }
}

} // verus!
