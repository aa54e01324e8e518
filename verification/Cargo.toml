[package]
name = "ckb_analyzer"
version = "0.1.0"
edition = "2021"
publish = false

[dependencies]
rand = "0.8"
tentacle-multiaddr = "*"
crossbeam = "0.8"
chrono = "0.4"
clap = "2"
log = "0.4"
serde = { version = "1", features = ["derive"] }
toml = "0.5"
tokio = { version = "1", features = ["rt-multi-thread", "macros", "time"] }
tokio-postgres = "0.7"
ipinfo = "*"
