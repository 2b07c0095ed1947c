//! The executor: the worker pool and the driver.

pub mod cx_box;
pub mod executor;
pub mod ledger;
pub mod teardown;
pub mod threads;
