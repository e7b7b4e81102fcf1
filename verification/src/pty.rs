//! Processes that run in a terminal of their own.

pub mod job;
