//! Recorded sessions on disk: file names, listings and lookups.

pub mod filename;
pub mod head;
pub mod listing;
pub mod lookup;
