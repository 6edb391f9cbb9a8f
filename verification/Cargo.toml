[package]
name = "votype_core"
version = "0.1.0"
edition = "2021"
publish = false

[dependencies]
regex = "1"
uuid = { version = "1", features = ["v4"] }
serde = { version = "1", features = ["derive"] }
serde_json = "1"
rusqlite = { version = "*", features = ["bundled"] }
chrono = "0.4"
reqwest = { version = "0.12", default-features = false, features = ["blocking", "cookies", "rustls-tls"] }
once_cell = "1"
log = "0.4"
anyhow = "1"
tokio = { version = "1", features = ["time", "rt", "macros"] }
