[package]
name = "agent_terrain"
version = "0.3.1"
edition = "2021"
publish = false

[dependencies]
env_logger = "0.11"
fs4 = "0.13"
log = "0.4"
notify = "6.1"
reqwest = { version = "0.12", default-features = false, features = ["json", "multipart", "rustls-tls"] }
rusqlite = { version = "0.31", features = ["bundled"] }
serde = { version = "1", features = ["derive"] }
serde_json = "1"
tokio = { version = "1", features = ["full"] }
