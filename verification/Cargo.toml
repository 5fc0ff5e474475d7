[package]
name = "menu_engine"
version = "0.1.0"
edition = "2021"
publish = false

[dependencies]
chrono = "0.4"
uuid = { version = "1", features = ["v4"] }
argon2 = "0.5"
serde = { version = "1", features = ["derive"] }
serde_json = "1"
actix-web = "4"
actix-session = { version = "0.9", features = ["cookie-session"] }
actix-rt = "2"
actix-cors = "0.7"
actix-files = "0.6"
tokio = { version = "1", features = ["time", "macros"] }
log = "0.4"
env_logger = "0.11"
