[package]
name = "network_scanner"
version = "0.1.0"
edition = "2021"
publish = false

[dependencies]
csv = "1"
egui = "0.28"
ipnetwork = "0.20"
pnet = "0.35"
serde = { version = "1", features = ["derive"] }
tokio = { version = "1", features = ["macros", "net", "rt-multi-thread", "sync", "time"] }
