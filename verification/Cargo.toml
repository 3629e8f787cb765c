[package]
name = "vecstore"
version = "0.1.0"
edition = "2021"
publish = false

[dependencies]
anyhow = "*"
dotenv = "*"
qdrant-client = "*"
serde_json = "*"
tokio = { version = "*", features = ["macros", "rt-multi-thread"] }
