[package]
name = "aegisone_agent"
version = "0.1.0"
edition = "2021"
publish = false

[dependencies]
uuid = { version = "1", features = ["v4", "serde"] }
chrono = { version = "0.4", features = ["serde"] }
serde = { version = "1", features = ["derive"] }
serde_json = "1"
toml = "0.8"
clap = { version = "4", features = ["derive", "env"] }
tokio = { version = "1", features = ["full"] }
tracing = "0.1"
tracing-subscriber = { version = "0.3", features = ["env-filter", "json"] }
notify = "6"
reqwest = { version = "0.12", default-features = false, features = ["json"] }
rand = "0.8"
dirs-next = "2"
libc = "0.2"
anyhow = "1"
thiserror = "1"
