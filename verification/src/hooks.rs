//! Commands that users hook into a session.

pub mod command_runner;
pub mod interrupt;
