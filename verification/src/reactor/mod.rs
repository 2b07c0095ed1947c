//! The I/O reactor: which wakers wait for which source, and whom an event
//! wakes.

pub mod io_source;
pub mod reactor;
