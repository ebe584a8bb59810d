use vstd::prelude::*;

verus! {

/// A unit of work scheduled on the host's event loop.
pub struct Job;

/// The lifecycle of an asynchronous computation.
pub enum LifecycleState {
    Inert,
    Staged,
    Running,
    Resolved,
    Rejected,
    Cancelled,
}

} // verus!
