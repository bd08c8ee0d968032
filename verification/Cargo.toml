[package]
name = "iron_gcd"
version = "0.1.0"
edition = "2021"
publish = false

[dependencies]
futures = "0.3"
iron = "0.6"
mime = "0.2"
reqwest = { version = "0.11", default-features = false, features = ["json"] }
router = "0.6"
serde = { version = "1", features = ["derive"] }
tokio = { version = "1", features = ["rt-multi-thread"] }
urlencoded = "0.6"
