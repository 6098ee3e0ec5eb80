[package]
name = "alfad"
version = "0.1.0"
edition = "2021"
publish = false

[dependencies]
anyhow = "1"
async-trait = "0.1"
clap = { version = "4", features = ["derive"] }
futures = "0.3"
nix = { version = "*", features = ["signal", "fs", "process"] }
postcard = { version = "1", features = ["alloc"] }
regex = "1"
serde = { version = "1", features = ["derive"] }
serde_yaml = "0.9"
shlex = "1"
signal-hook = "0.3"
signal-hook-async-std = "0.2"
smallvec = { version = "1", features = ["serde"] }
smol = "*"
thiserror = "1"
topological-sort = "0.2"
tracing = "0.1"
tracing-subscriber = "0.3"
