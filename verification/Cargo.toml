[package]
name = "relay"
version = "0.1.0"
edition = "2021"
publish = false

[dependencies]
ulid = "*"
s2n-quic = "*"
tokio = { version = "*", features = ["rt-multi-thread", "macros", "sync", "io-util"] }
clap = { version = "*", features = ["derive"] }
dotenv = "*"
env_logger = "*"
log = "*"
bytes = "*"
