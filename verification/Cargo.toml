[package]
name = "rustsentry"
version = "0.1.0"
edition = "2021"
publish = false

[dependencies]
pnet = "0.35"
pcap = "2"
anyhow = "1"
chrono = "0.4"
clap = { version = "4", features = ["derive"] }
serde = { version = "1", features = ["derive"] }
toml = "0.8"
ndarray = "0.16"
