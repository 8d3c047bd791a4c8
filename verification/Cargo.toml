[package]
name = "madome_auth"
version = "0.1.0"
edition = "2021"
publish = false

[dependencies]
base64 = "=0.22.1"
chrono = "=0.4.45"
jsonwebtoken = "=9.3.1"
nanoid = "=0.5.0"
ring = "=0.17.14"
uuid = { version = "=1.27.0", features = ["v4"] }
serde = { version = "1", features = ["derive"] }
serde_json = "1"
tokio = { version = "1", features = ["full"] }
hyper = { version = "=0.14.32", features = ["full"] }
querystring = "*"
redis = "*"
dotenv = "*"
