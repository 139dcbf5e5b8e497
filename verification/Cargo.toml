[package]
name = "bladedance"
version = "0.1.0"
edition = "2021"
publish = false

[dependencies]
chrono = "*"
serde = { version = "*", features = ["derive"] }
toml = "*"
tracing = "*"
clap = { version = "*", features = ["derive"] }
lazy_static = "*"
libc = "*"
libloading = "*"
nix = { version = "*", features = ["user"] }
async-trait = "*"
tokio = { version = "*", features = ["rt", "sync"] }
mongodb = "*"
winapi = { version = "*", features = ["winsock2"] }
