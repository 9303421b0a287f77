use vstd::prelude::*;

verus! {

/// The coarse lifecycle of a transfer run.
#[derive(Debug, Clone, Copy, PartialEq, Eq)]
pub enum Phase {
    Startup,
    Configured,
    Characterizing,
    Characterized,
    Calibrating,
    Calibrated,
    Running,
    Paused,
    Resuming,
    Completed,
    Shutdown,
    Error,
}

} // verus!
