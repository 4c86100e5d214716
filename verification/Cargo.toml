[package]
name = "fuse_access_guard"
version = "0.1.0"
edition = "2021"
publish = false

[dependencies]
glob = "*"
nix = { version = "*", features = ["dir", "fs", "mount", "process", "sched", "signal", "uio", "user"] }
libc = "*"
fuser = "*"
serde = { version = "*", features = ["derive"] }
serde_json = "*"
