[package]
name = "price_server"
version = "0.1.0"
edition = "2021"
publish = false

[dependencies]
async-trait = "0.1"
chrono = { version = "0.4", features = ["clock", "serde"] }
data-encoding = "2"
futures = "0.3"
governor = "0.5"
lazy_static = "1.4"
reqwest = { version = "0.11", default-features = false, features = ["json"] }
ring = "0.16"
rust_decimal = "1"
serde = { version = "1", features = ["derive"] }
serde_json = "1"
thiserror = "1"
tokio = { version = "1", features = ["rt-multi-thread", "macros", "sync", "time"] }
tokio-tungstenite = "0.18"
tracing = "0.1"
