[package]
name = "app_blocker"
version = "0.1.0"
edition = "2021"
publish = false

[dependencies]
ipnet = "2"
serde = { version = "1", features = ["derive"] }
serde_json = "1"
tokio = { version = "1", features = ["rt-multi-thread", "macros", "net", "io-util", "time", "signal", "sync"] }
rusqlite = { version = "0.31", features = ["bundled"] }
nix = { version = "0.29", features = ["user"] }
chrono = "0.4"
tracing = "0.1"
tracing-subscriber = { version = "0.3", features = ["env-filter"] }
thiserror = "1"
