[package]
name = "butler"
version = "0.1.0"
edition = "2021"
publish = false

[dependencies]
chrono = "0.4"
clap = { version = "4", features = ["derive"] }
nix = { version = "*", features = ["signal", "process"] }
regex = "1"
serde = { version = "1", features = ["derive"] }
serde_yaml = "0.9"
shell-words = "1"
tokio = { version = "1", features = ["rt", "time", "net", "signal"] }
watchexec = "*"
watchexec-events = "*"
watchexec-signals = "*"
