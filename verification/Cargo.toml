[package]
name = "termmon"
version = "0.1.0"
edition = "2021"
publish = false

[dependencies]
base64 = "0.13"
chrono = "0.4"
url = "2"
hyper = { version = "0.14", features = ["full"] }
tokio = { version = "1", features = ["rt", "macros", "net", "time"] }
rusqlite = { version = "*", features = ["bundled", "chrono"] }
serde = { version = "1", features = ["derive"] }
