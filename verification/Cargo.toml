[package]
name = "devapi"
version = "0.1.0"
edition = "2021"
publish = false

[dependencies]
ring = "*"
base64 = "*"
uuid = { version = "*", features = ["v4"] }
serde = { version = "*", features = ["derive"] }
serde_json = "*"
reqwest = { version = "*", default-features = false, features = ["json", "rustls-tls"] }
actix-web = "*"
actix-cors = "*"
sqlx = { version = "*", default-features = false, features = ["runtime-tokio", "postgres", "uuid", "chrono", "json"] }
chrono = { version = "*", features = ["serde"] }
dotenv = "*"
env_logger = "*"
secrecy = "*"
