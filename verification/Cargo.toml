[package]
name = "ratpm"
version = "0.1.0"
edition = "2021"
publish = false

[dependencies]
anyhow = "1"
chrono = "0.4"
clap = { version = "4", features = ["derive"] }
dirs = "*"
nix = { version = "*", features = ["fs", "process", "signal", "user"] }
serde = { version = "1", features = ["derive"] }
thiserror = "*"
toml = "*"
tracing = "0.1"
tracing-subscriber = { version = "0.3", features = ["env-filter"] }
