[package]
name = "flash"
version = "0.1.0"
edition = "2021"
publish = false

[dependencies]
clang = { version = "2", features = ["runtime"] }
glob = "0.3"
pulldown-cmark = { version = "0.9", default-features = false }
regex-lite = "0.1"
serde = { version = "1", features = ["derive"] }
serde_yaml = "0.9"
tokio = { version = "1", features = ["rt", "rt-multi-thread", "fs"] }
toml = "0.8"
