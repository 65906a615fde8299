//! What one poll of a waiting operation reports, and who is waiting.

use vstd::prelude::*;

verus! {

/// The identity of a task, as the scheduler numbers them. A waiting
/// operation remembers the task that polled it, so that a later change of
/// state can name the tasks to wake.
pub type TaskId = u64;

/// The outcome of one poll: finished with a value, or still waiting.
#[derive(Debug, PartialEq, Eq)]
pub enum Poll<T> {
    Ready(T),
    Pending,
}

} // verus!
