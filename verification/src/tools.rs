//! The tools that a model may call.

pub mod tool_name;
pub mod tool_search;
