//! Pause/resume signal shared by the orchestrator and the agents.
//!
//! The flag says whether agents may claim new tasks. Agents finish the
//! task in hand, then consult the signal before claiming the next one;
//! while it is paused they wait for a resume.

use vstd::prelude::*;

verus! {

/// The workflow's pause flag: while paused, agents stop claiming tasks
/// after the current one.
#[derive(Debug)]
pub struct WorkflowSignal {
    paused: bool,
}

impl WorkflowSignal {
    /// Whether the workflow is paused.
    pub closed spec fn paused(&self) -> bool {
        self.paused
    }

    /// A new signal, in the running state.
    pub fn new() -> (s: Self)
        ensures
            !s.paused(),
    {
        WorkflowSignal { paused: false }
    }

    /// Request a pause: agents drain their current tasks, then stop.
    pub fn pause(&mut self)
        ensures
            final(self).paused(),
    {
        self.paused = true;
    }

    /// Resume: agents continue claiming tasks.
    pub fn resume(&mut self)
        ensures
            !final(self).paused(),
    {
        self.paused = false;
    }

    /// Whether the workflow is paused.
    pub fn is_paused(&self) -> (r: bool)
        ensures
            r == self.paused(),
    {
        self.paused
    }
}

} // verus!
