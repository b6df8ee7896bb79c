[package]
name = "state_keeper"
version = "0.1.0"
edition = "2021"
publish = false

[dependencies]
anyhow = "1"
ff_ce = "0.11"
fnv = "1.0.7"
poseidon-rs = "*"
rust_decimal = "1"
serde = { version = "1", features = ["derive"] }
serde_json = "1"
