[package]
name = "flowtrace"
version = "0.1.0"
edition = "2021"
publish = false

[dependencies]
clap = { version = "4", features = ["derive"] }
httparse = "1"
pcap = "*"
pnet = "*"
serde_json = "1"
