[package]
name = "kumo"
version = "0.1.0"
edition = "2021"
rust-version = "1.95"
publish = false

[dependencies]
anyhow = "=1.0.104"
async-trait = "0.1"
base64 = "=0.22.1"
chrono = "=0.4.45"
chrono-tz = "=0.10.4"
dialoguer = { version = "=0.11.0", features = ["fuzzy-select"] }
directories = "=6.0.0"
reqwest = { version = "=0.12.28", features = ["json"] }
rmcp = { version = "=3.8.0", features = ["client", "transport-child-process"] }
rusqlite = { version = "=0.41.1", features = ["bundled"] }
serde = { version = "1", features = ["derive"] }
serde_json = "=1.0.154"
sysinfo = "=0.40.1"
takecell = "<0.1.2"
teloxide = "=0.17.0"
tokio = { version = "=1.54.1", features = ["full"] }
toml = "=1.1.8"
uuid = { version = "=1.29.0", features = ["v4"] }
webbrowser = "=1.2.6"
