//! What a task is.
use vstd::prelude::*;

verus! {

/// Something that can be run.
pub trait Task {
    /// Runs the task.
    fn run(&mut self);
}

/// How far a task has come.
#[derive(Clone, Copy, Debug, PartialEq, Eq)]
pub enum TaskStatus {
    Complete,
    Errored,
    Processing,
}

} // verus!
