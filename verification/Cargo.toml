[package]
name = "rustql"
version = "0.1.0"
edition = "2021"
publish = false

[dependencies]
serde = { version = "*", features = ["derive"] }
serde_json = "*"
uuid = { version = "*", features = ["v4"] }
tokio = { version = "*", features = ["rt-multi-thread", "macros", "time", "signal"] }
axum = "*"
reqwest = { version = "*", default-features = false, features = ["json"] }
chrono = "*"
tower-http = { version = "*", features = ["cors"] }
