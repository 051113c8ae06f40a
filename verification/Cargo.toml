[package]
name = "trow"
version = "0.1.0"
edition = "2021"
publish = false

[dependencies]
serde = { version = "1", features = ["derive"] }
serde_json = "1"
size = { version = "*", features = ["serde"] }
sqlx = { version = "0.8", default-features = false, features = ["runtime-tokio", "sqlite", "json"] }
tokio = { version = "1", features = ["rt", "time"] }
tracing = "0.1"
