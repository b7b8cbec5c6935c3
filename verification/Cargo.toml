[package]
name = "areabook"
version = "0.1.0"
edition = "2021"
publish = false

[dependencies]
base64 = "*"
flate2 = "*"
serde = { version = "*", features = ["derive"] }
serde_json = "*"
csv = "*"
chrono = "*"
reqwest = { version = "*", default-features = false }
tokio = { version = "*", features = ["fs", "io-util", "macros", "rt-multi-thread"] }
dotenvy = "*"
