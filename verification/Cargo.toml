[package]
name = "mossy"
version = "0.1.0"
edition = "2021"
publish = false

[dependencies]
base64 = "=0.22.1"
bson = "=2.15.0"
jsonwebtoken = { version = "=11.1.0", features = ["rust_crypto"] }
serde = { version = "=1.0.229", features = ["derive"] }
serde_json = "=1.0.151"
mongodb = { version = "=3.9.1", default-features = false, features = ["compat-3-0-0", "rustls-tls"] }
reqwest = { version = "=0.13.5", default-features = false, features = ["blocking", "json"] }
dotenv = "=0.15.0"
futures = "=0.3.34"
