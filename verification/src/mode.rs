//! The modes of execution.
use vstd::prelude::*;

verus! {

/// The different modes the executor can run in.
#[derive(Clone, Copy, PartialEq, Eq, Structural, Debug)]
pub enum ExecutorMode {
    /// Run the execution with no tracing or checkpointing.
    Simple,
    /// Run the execution with checkpoints for memory.
    Checkpoint,
    /// Run the execution with full tracing of events.
    Trace,
}

impl Default for ExecutorMode {
    fn default() -> (mode: ExecutorMode)
        ensures
            mode == ExecutorMode::Simple,
    {
        ExecutorMode::Simple
    }
}

} // verus!
