[package]
name = "context_analyzer"
version = "0.1.0"
edition = "2021"
publish = false

[dependencies]
scylla = "0.13"
actix-web = "4"
actix-rt = "2"
actix-cors = "0.7"
serde = { version = "1", features = ["derive"] }
serde_json = "1"
futures = "0.3"
tokio = { version = "1", features = ["full"] }
dotenv = "0.15"
listenfd = "1"
