[package]
name = "orchestrator"
version = "0.1.0"
edition = "2021"
publish = false

[dependencies]
uuid = { version = "1", features = ["v4"] }
serde = { version = "1", features = ["derive"] }
tokio = { version = "1", features = ["macros", "rt-multi-thread", "net", "time", "sync"] }
axum = "0.8"
reqwest = { version = "0.12", default-features = false, features = ["json"] }
bollard = "0.18"
futures-util = "0.3"
sysinfo = "0.33"
