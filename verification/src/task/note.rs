//! Notifications: the unit in which the runtime asks for a task to be polled.

use vstd::prelude::*;

verus! {

/// The id that stands for "stop": a receiver that reads it shuts down.
pub const SHUTDOWN_ID: u64 = u64::MAX;

/// The id of the root task, which the driver polls itself.
pub const ROOT_ID: u64 = u64::MAX - 1;

/// A request to poll the task with the given id.
#[derive(Clone, Copy, PartialOrd, PartialEq, Ord, Eq, Debug, Structural)]
pub struct Note(pub u64);

impl Note {
    /// The notification that tells a receiver to shut down.
    pub fn shutdown() -> (n: Note)
        ensures
            n == Note(SHUTDOWN_ID),
    {
        Note(SHUTDOWN_ID)
    }

    /// The notification that asks for the root task.
    pub fn root() -> (n: Note)
        ensures
            n == Note(ROOT_ID),
    {
        Note(ROOT_ID)
    }

    /// Whether this is the shutdown sentinel.
    pub fn is_shutdown(&self) -> (b: bool)
        ensures
            b == (self.0 == SHUTDOWN_ID),
    {
        self.0 == SHUTDOWN_ID
    }

    /// Whether this notification is addressed to the root task.
    pub fn is_root(&self) -> (b: bool)
        ensures
            b == (self.0 == ROOT_ID),
    {
        self.0 == ROOT_ID
    }
}

} // verus!
