[package]
name = "syslog_sink"
version = "0.1.0"
edition = "2021"
publish = false

[dependencies]
tokio = { version = "1", features = ["full"] }
sqlx = { version = "0.8", features = ["mysql", "runtime-tokio"] }
rocket = { version = "0.5", features = ["json"] }
serde = { version = "1", features = ["derive"] }
dotenv = "0.15"
