[package]
name = "codex_core"
version = "0.1.0"
edition = "2021"
publish = false

[dependencies]
anyhow = "1"
chrono = { version = "0.4", features = ["serde"] }
crossterm = "0.28"
libc = "0.2"
serde = { version = "1", features = ["derive"] }
serde_json = "1"
shlex = "1.3"
sqlx = { version = "0.8", default-features = false, features = ["runtime-tokio", "sqlite", "migrate"] }
thiserror = "2"
time = { version = "0.3", features = ["formatting", "parsing", "macros"] }
tokio = { version = "1", features = ["fs", "io-util", "macros", "process", "rt-multi-thread", "sync", "time"] }
tokio-util = "0.7"
tracing = "0.1"
tree-sitter = "0.25"
tree-sitter-bash = "0.25"
uuid = { version = "1", features = ["v4", "v7"] }
which = "8"
winapi = { version = "0.3", features = ["handleapi", "jobapi2", "minwindef", "processthreadsapi", "synchapi", "winbase", "winnt"] }

[dev-dependencies]
tempfile = "3"
