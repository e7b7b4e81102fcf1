//! Installing the bundled runtime: what a manifest may say, which commands are
//! run, and in which order the directories are swapped.

pub mod executor;
pub mod installer;
pub mod validation;
