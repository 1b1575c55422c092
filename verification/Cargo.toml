[package]
name = "torrent_client"
version = "0.1.0"
edition = "2021"
publish = false

[dependencies]
anyhow = "1"
rand = "0.9"
serde = { version = "1", features = ["derive"] }
serde_bencode = "0.2"
serde_bytes = "0.11"
sha1 = "0.10"
tokio = { version = "1", features = ["full"] }

[dev-dependencies]
hex = "0.4"
