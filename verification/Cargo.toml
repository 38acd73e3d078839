[package]
name = "garbage_bot"
version = "0.1.0"
edition = "2021"
publish = false

[dependencies]
ical = "*"
reqwest = { version = "*", default-features = false, features = ["rustls-tls"] }
tokio = { version = "*", features = ["rt-multi-thread", "macros", "sync", "time"] }
chrono = "*"
chrono-tz = "*"
tracing = "*"
tracing-subscriber = { version = "*", features = ["env-filter"] }
