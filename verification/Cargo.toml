[package]
name = "polarize_core"
version = "0.1.0"
edition = "2021"
publish = false

[dependencies]
base64 = "0.22"
rmcp = { version = "*", features = ["macros", "server", "transport-io"] }
schemars = "1"
serde = { version = "1", features = ["derive"] }
serde_json = "1"
thiserror = "2"
tokio = { version = "1", features = ["macros", "rt-multi-thread", "time"] }
tracing = "0.1"
tracing-subscriber = { version = "0.3", features = ["env-filter"] }
