[package]
name = "lord_varys"
version = "0.1.0"
edition = "2021"
publish = false

[dependencies]
anyhow = "1"
block = "0.1"
chrono = "0.4"
cocoa = "0.25"
dirs = "5"
futures-util = "0.3"
hound = "3"
log = "0.4"
objc = "0.2"
once_cell = "1"
parking_lot = "0.12"
reqwest = { version = "0.12", default-features = false, features = ["stream", "rustls-tls"] }
rusqlite = { version = "0.31", features = ["bundled"] }
serde = { version = "1", features = ["derive"] }
serde_json = "1"
thiserror = "1"
tokio = { version = "1", features = ["full"] }
