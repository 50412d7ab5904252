[package]
name = "cocktails"
version = "0.1.0"
edition = "2021"
publish = false

[dependencies]
mongodb = "2"
tokio = { version = "1", features = ["macros", "rt-multi-thread"] }
futures = "0.3"
chrono = "0.4"
serde = { version = "1", features = ["derive"] }
