[package]
name = "nublog"
version = "0.1.0"
edition = "2021"
publish = false

[dependencies]
anyhow = "=1.0.104"
chrono = { version = "=0.4.45", features = ["serde"] }
criterion = "=0.8.2"
dotenv = "=0.15.0"
env_logger = "=0.11.11"
http = "=1.5.0"
log = "=0.4.34"
nuclear = "=0.0.10"
reqwest = { version = "=0.13.5", features = ["json", "query"] }
serde = { version = "=1.0.229", features = ["derive"] }
serde_json = "=1.0.154"
serde_urlencoded = "0.7"
sqlx = { version = "=0.9.0", features = ["postgres", "runtime-tokio", "uuid", "chrono"] }
thiserror = "=2.0.21"
tokio = { version = "=1.54.1", features = ["full"] }
toml = "=1.1.8"
uuid = { version = "=1.29.0", features = ["serde", "v4"] }
