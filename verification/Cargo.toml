[package]
name = "escutcheon"
version = "0.1.0"
edition = "2021"
publish = false

[dependencies]
anyhow = "1"
clap = { version = "4", features = ["derive"] }
dashmap = "*"
dirs = "*"
pnet = "*"
pnet_datalink = "*"
serde = { version = "1", features = ["derive"] }
tokio = { version = "1", features = ["rt-multi-thread", "macros", "time"] }
toml = "*"
tracing = "0.1"
tracing-subscriber = "0.3"
