[package]
name = "cargo_vendor_filterer"
version = "0.5.18"
edition = "2021"
publish = false

[dependencies]
anyhow = "1"
camino = { version = "1", features = ["serde1"] }
cargo_metadata = "*"
clap = { version = "4", features = ["derive"] }
either = "1"
flate2 = "1"
glob = "0.3"
serde = { version = "1", features = ["derive"] }
serde_json = "1"
sha2 = "0.10"
tar = "0.4"
toml = "*"
