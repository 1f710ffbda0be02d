[package]
name = "relay_builder"
version = "0.5.0"
edition = "2021"
publish = false

[dependencies]
anyhow = "1"
arc-swap = "1"
axum = { version = "0.8", features = ["ws"] }
clap = { version = "4", features = ["derive"] }
dashmap = "6"
flume = "0.11"
futures-util = "0.3"
governor = "0.10"
heed = "0.20"
hex = "0.4"
indicatif = "0.17"
libc = "0.2"
negentropy = "0.5"
nostr-database = "0.43"
nostr-lmdb = "0.43"
nostr-sdk = "0.43"
num_cpus = "1"
once_cell = "1"
parking_lot = "0.12"
rand = "0.9"
rayon = "1"
serde = { version = "1", features = ["derive"] }
serde_json = "1"
snafu = "0.8"
tokio = { version = "1", features = ["full"] }
tokio-util = { version = "0.7", features = ["rt"] }
tracing = "0.1"
tracing-subscriber = { version = "0.3", features = ["env-filter"] }
url = "2"
uuid = { version = "1", features = ["v4"] }
