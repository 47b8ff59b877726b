[package]
name = "shell_core"
version = "0.1.0"
edition = "2021"
publish = false

[dependencies]
libc = "=0.2.191"
rig-core = "0.31"
rustyline = "=19.0.0"
tokio = { version = "=1.54.1", features = ["rt", "rt-multi-thread"] }
