[package]
name = "agent_heart"
version = "0.1.0"
edition = "2021"
publish = false

[dependencies]
anyhow = "=1.0.104"
axum = "=0.8.9"
chrono = "=0.4.45"
clap = { version = "=4.6.7", features = ["derive"] }
dirs = "=7.0.0"
rmcp = { version = "=3.8.0", features = ["server", "macros", "transport-io"] }
rusqlite = { version = "=0.41.1", features = ["bundled"] }
schemars = "=1.2.3"
serde = { version = "=1.0.229", features = ["derive"] }
serde_json = "=1.0.154"
tokio = { version = "=1.54.1", features = ["full"] }
tokio-cron-scheduler = "=0.15.1"
toml = "*"
tracing = "=0.1.44"
tracing-subscriber = { version = "=0.3.23", features = ["env-filter"] }
tree-sitter = "=0.27.1"
tree-sitter-bash = "=0.25.1"

[dev-dependencies]
tempfile = "=3.27.0"
