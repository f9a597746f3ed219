[package]
name = "octosync"
version = "0.4.0"
edition = "2021"
publish = false

[dependencies]
anyhow = "=1.0.104"
async-compression = { version = "=0.4.52", features = ["tokio", "gzip"] }
atomic-write-file = "=0.3.1"
chrono = { version = "=0.4.45", features = ["serde"] }
clap = { version = "=4.6.7", features = ["derive"] }
directories = "=6.0.0"
fs2 = "=0.4.3"
futures = "=0.3.34"
hannibal = "=0.17.3"
jsonwebtoken = "=9.3.1"
nix = { version = "=0.31.3", features = ["user", "fs", "process", "signal"] }
octocrab = "=0.44.1"
procfs = "=0.18.0"
rustls = "=0.23.46"
serde = { version = "=1.0.229", features = ["derive"] }
serde_json = "=1.0.154"
ssh-key = "=0.6.7"
tokio = { version = "=1.54.1", features = ["full"] }
tokio-tar = "=0.3.1"
tracing = "=0.1.44"
tracing-subscriber = "=0.3.23"
