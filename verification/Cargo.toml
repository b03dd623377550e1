[package]
name = "arifa"
version = "0.1.0"
edition = "2021"
publish = false

[dependencies]
tokio = { version = "1", features = ["full"] }
serde = { version = "1", features = ["derive"] }
serde_json = "1"
uuid = { version = "1", features = ["v4"] }
redis = { version = "*", features = ["tokio-comp", "connection-manager"] }
futures = "0.3"
futures-util = "0.3"
async-trait = "0.1"
tracing = "0.1"
axum = { version = "0.7", features = ["ws"] }
actix-web = "4"
actix-ws = "0.3"
