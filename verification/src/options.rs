//! Options for spawning an actor.

use vstd::prelude::*;

use crate::scheduler::Priority;

verus! {

/// Options for adding an actor to the runtime.
#[derive(Clone, Debug)]
pub struct ActorOptions {
    priority: Priority,
    ready: bool,
}

impl ActorOptions {
    /// The priority set in the options.
    pub closed spec fn spec_priority(&self) -> Priority {
        self.priority
    }

    /// Whether the actor starts ready to run.
    pub closed spec fn spec_ready(&self) -> bool {
        self.ready
    }

    /// Returns the priority set in the options.
    pub fn priority(&self) -> (r: Priority)
        ensures
            r == self.spec_priority(),
    {
        self.priority
    }

    /// Set the scheduling priority.
    pub fn with_priority(self, priority: Priority) -> (r: ActorOptions)
        ensures
            r.spec_priority() == priority,
            r.spec_ready() == self.spec_ready(),
    {
        ActorOptions { priority, ..self }
    }

    /// Returns `true` if the actor is ready to run when spawned.
    ///
    /// See [`Self::mark_ready`].
    pub fn is_ready(&self) -> (r: bool)
        ensures
            r == self.spec_ready(),
    {
        self.ready
    }

    /// Mark the actor as ready to run when spawned.
    ///
    /// By default a newly spawned actor waits for an external event — a
    /// message sent to it, or an I/O source becoming ready — before it first
    /// runs.
    pub fn mark_ready(self) -> (r: ActorOptions)
        ensures
            r.spec_priority() == self.spec_priority(),
            r.spec_ready(),
    {
        ActorOptions { ready: true, ..self }
    }
}

impl Default for ActorOptions {
    /// The default options: normal priority, not ready until woken.
    fn default() -> (r: ActorOptions)
        ensures
            r.spec_priority() == Priority::NORMAL,
            !r.spec_ready(),
    {
        ActorOptions { priority: Priority::NORMAL, ready: false }
    }
}

} // verus!
