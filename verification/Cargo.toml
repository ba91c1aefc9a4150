[package]
name = "modeman"
version = "0.1.0"
edition = "2021"
publish = false

[dependencies]
url = "2"
roxmltree = "*"
serde = { version = "1", features = ["derive"] }
serde_json = "1"
walkdir = "2"
dirs = "*"
thiserror = "*"
tracing = "0.1"
rusqlite = "*"
compress-tools = "*"
reqwest = { version = "*", default-features = false, features = ["blocking", "json", "rustls-tls"] }
