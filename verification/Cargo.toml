[package]
name = "regelator"
version = "0.1.0"
edition = "2021"
publish = false

[dependencies]
rand = "*"
uuid = { version = "*", features = ["v7"] }
csv = "*"
chrono = "*"
serde = { version = "*", features = ["derive"] }
axum = "*"
axum-extra = { version = "*", features = ["cookie", "form", "query"] }
tokio = { version = "*", features = ["full"] }
minijinja = "*"
jsonwebtoken = "*"
argon2 = "*"
charming = "*"
pulldown-cmark = "*"
ammonia = "*"
time = "*"
arrow-array = "*"
arrow-schema = "*"
parquet = { version = "*", features = ["arrow"] }
