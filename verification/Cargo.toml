[package]
name = "tiny_maps"
version = "0.1.0"
edition = "2021"
publish = false

[dependencies]
sha2 = "0.10"
zstd = "0.13"
osmpbfreader = "*"
clap = { version = "4", features = ["derive"] }
postgres = "0.19"
serde = { version = "1", features = ["derive"] }
parking_lot = "0.12"
