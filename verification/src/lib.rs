//! Verified core logic of a coding agent: hook policies, session listings,
//! schedules, queues, runtime installation and the text rules they share.

pub mod hooks;
pub mod http_state;
pub mod ids;
pub mod json;
pub mod login;
pub mod moment;
pub mod oauth;
pub mod ordering;
pub mod paths;
pub mod plugins;
pub mod pty;
pub mod rollout;
pub mod runtime_install;
pub mod sandboxing;
pub mod schema_evolution;
pub mod shell_command;
pub mod state;
pub mod text;
pub mod tools;
pub mod tui;
pub mod update;
