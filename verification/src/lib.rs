//! The verified core of a cooperative asynchronous runtime.
//!
//! The crate holds the bookkeeping and the decisions of the runtime as plain
//! data: task cells with their reference counts and output slots, the
//! registries that hand out task ids and I/O tokens, the waker lists of the
//! reactor, the load-balanced worker pool and the driver loop. Whatever blocks
//! (threads, the selector, a computation being polled) is left to the
//! embedder, which feeds its events into the functions of this crate and
//! performs what they hand back.

pub mod registry;
pub mod channel;
pub mod task;
pub mod reactor;
pub mod runtime;

pub use runtime::executor::Executor;
