[package]
name = "order_backend"
version = "0.1.0"
edition = "2021"
publish = false

[dependencies]
jsonwebtoken = "9"
bcrypt = "0.15"
serde_json = "1"
axum = "0.6"
tokio = { version = "1", features = ["full"] }
serde = { version = "1", features = ["derive"] }
tower-http = { version = "0.4", features = ["cors"] }
dotenv = "0.15"
