[package]
name = "seeklocal_core"
version = "0.1.0"
edition = "2021"
publish = false

[dependencies]
rusqlite = { version = "=0.41.1", features = ["bundled"] }
blake3 = "=1.8.7"
walkdir = "=2.5.0"
serde = { version = "=1.0.229", features = ["derive"] }
thiserror = "=2.0.21"
fastembed = { version = "=7.5.0", default-features = false, features = ["ort-load-dynamic", "hf-hub-rustls-tls"] }
