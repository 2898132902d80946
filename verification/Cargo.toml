[package]
name = "specgen"
version = "0.1.0"
edition = "2021"
publish = false

[dependencies]
serde = { version = "1", features = ["derive"] }
serde_json = "1"
toml = "0.8"
quick-xml = "0.37"
regex = "1"
base64 = "0.22"
pulldown-cmark = { version = "0.11", default-features = false }
serde_yaml = "0.9"
jsonschema = { version = "0.18", default-features = false }
uuid = { version = "1", features = ["v4"] }
rusqlite = { version = "0.31", features = ["bundled"] }
anyhow = "1"
clap = { version = "4", features = ["derive", "env"] }
chrono = "0.4"
colored = "2"
ignore = "0.4"
bincode = "1"
reqwest = { version = "0.12", default-features = false, features = ["blocking", "json", "rustls-tls"] }
axum = "0.7"
tokio = { version = "1", features = ["full"] }
tracing = "0.1"
