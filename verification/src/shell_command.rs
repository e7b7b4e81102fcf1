//! What shell commands say.

pub mod bash;
pub mod quoting;
pub mod shell_detect;
pub mod syntax;
