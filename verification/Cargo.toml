[package]
name = "agent_engine"
version = "0.1.0"
edition = "2021"
publish = false

[dependencies]
anyhow = "1"
async-trait = "0.1"
chrono = "0.4"
crossterm = "*"
futures = "0.3"
git2 = { version = "*", default-features = false }
glob = "0.3"
pin-project = "1"
ratatui = "*"
regex = "1"
reqwest = { version = "0.12", default-features = false, features = ["json", "stream", "rustls-tls"] }
rusqlite = { version = "*", features = ["bundled"] }
serde = { version = "1", features = ["derive"] }
serde_json = "1"
textwrap = "*"
thiserror = "*"
tokio = { version = "1", features = ["full"] }
tracing = "0.1"
tracing-subscriber = { version = "0.3", features = ["env-filter"] }
unicode-width = "*"
uuid = { version = "1", features = ["v4"] }
walkdir = "2"
