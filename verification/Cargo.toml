[package]
name = "third_party_licenses"
version = "0.1.0"
edition = "2021"
publish = false

[dependencies]
anyhow = "=1.0.104"
cargo_metadata = "=0.19.2"
clap = { version = "=4.6.7", features = ["derive"] }
serde_json = "=1.0.154"
spdx = { version = "=0.12.0", features = ["text"] }
