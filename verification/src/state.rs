//! State that outlives a session: automations, queued messages, artifacts and
//! the schema of the databases they are kept in.

pub mod artifacts;
pub mod automation;
pub mod automations;
pub mod migrations;
pub mod queue;
pub mod schedule;
