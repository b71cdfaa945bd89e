[package]
name = "tenda"
version = "0.1.0"
edition = "2021"
publish = false

[dependencies]
chrono = { version = "0.4", default-features = false, features = ["std"] }
chrono-tz = "*"

[dev-dependencies]
peekmore = "=1.3.0"
