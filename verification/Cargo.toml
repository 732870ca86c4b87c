[package]
name = "occupancy_forecast"
version = "0.1.0"
edition = "2021"
publish = false

[dependencies]
serde_json = "1"
chrono = "0.4"
chrono-tz = "*"
regex = "1"
jsonwebtoken = "*"
reqwest = { version = "*", default-features = false }
tokio = { version = "1", features = ["rt-multi-thread", "macros", "time", "fs", "io-util"] }
