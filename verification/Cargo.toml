[package]
name = "snmp_dc"
version = "0.1.0"
edition = "2021"
publish = false

[dependencies]
snmp = "0.2"
actix = "0.10"
actix-rt = "1"
tokio = { version = "0.2", features = ["full"] }
tokio-util = { version = "0.3", features = ["codec", "udp"] }
bytes = "0.5"
futures = "0.3"
postgres = "0.19"
config = "0.10"
serde = { version = "1", features = ["derive"] }
slog = "2"
slog-async = "2"
slog-json = "2"
slog-term = "2"
