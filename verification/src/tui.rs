//! What the terminal interface shows and keeps.

pub mod input_queue;
pub mod reset_credits;
pub mod session_resume;
pub mod tab_status;
pub mod tab_status_state;
