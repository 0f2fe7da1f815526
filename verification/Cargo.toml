[package]
name = "mqtt_broker"
version = "0.1.0"
edition = "2021"
publish = false

[dependencies]
anyhow = "1"
argon2 = "0.5"
axum = { version = "0.7", features = ["ws"] }
bincode = "1"
bytes = "1"
chrono = "0.4"
dashmap = "6"
futures-util = "0.3"
jsonwebtoken = "9"
password-hash = "0.5"
rand_core = { version = "0.6", features = ["getrandom"] }
redb = "2"
serde = { version = "1", features = ["derive"] }
serde_yaml = "0.9"
tokio = { version = "1", features = ["rt-multi-thread", "macros", "net", "io-util", "sync", "time"] }
tower-http = { version = "0.5", features = ["cors"] }
