//! A task queue kept as one byte buffer, the runner that works it off, and the
//! generator of the code that wraps a function as a task.
mod address;
pub mod buffer;
pub mod dummy;
pub mod expand;
pub mod generated;
pub mod handle;
pub mod layout;
pub mod queue;
pub mod record;
pub mod runner;
pub mod task;
pub mod tasker;
pub mod template;
pub mod text;
pub mod word;

pub use crate::expand::task;
pub use crate::task::Task;
pub use crate::task::TaskStatus;
pub use crate::tasker::Tasker;
