[package]
name = "audiobook_tagger"
version = "0.1.0"
edition = "2021"
publish = false

[dependencies]
anyhow = "1"
lofty = "0.22"
reqwest = { version = "0.12", default-features = false, features = ["json", "rustls-tls"] }
serde = { version = "1", features = ["derive"] }
serde_json = "1"
tokio = { version = "1", features = ["macros", "rt-multi-thread", "time"] }
urlencoding = "2"
walkdir = "2"
