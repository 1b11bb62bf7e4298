[package]
name = "backend"
version = "0.1.0"
edition = "2021"
publish = false

[dependencies]
serde_json = "1"
sha2 = "0.10"
regex = "1"
chrono = "0.4"
uuid = { version = "1", features = ["v4"] }
serde = { version = "1", features = ["derive"] }
rusqlite = "*"
tokio = { version = "1", features = ["sync", "rt-multi-thread", "macros", "time"] }
actix-web = "4"
actix-multipart = "*"
actix-session = { version = "*", features = ["cookie-session"] }
actix-cors = "*"
argon2 = "0.5"
csrf = "*"
base64 = "0.22"
rand = "0.8"
dotenvy = "0.15"
env_logger = "*"
log = "0.4"
