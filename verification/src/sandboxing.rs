//! The sandbox that commands run in.

pub mod bwrap;
