//! Tasks: the cell that holds a computation's state, and those who refer to it.

pub mod handle;
pub mod mantle;
pub mod note;
pub mod notification;
pub mod task;
pub mod vtable;
pub mod waker;
