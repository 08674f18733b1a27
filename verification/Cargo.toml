[package]
name = "fieldchain"
version = "0.4.6"
edition = "2021"
publish = false

[dependencies]
anyhow = "1"
async-trait = "0.1"
chrono = "0.4"
dirs = "5"
hex = "0.4"
notify = "6"
quick-xml = "0.31"
rand = "0.8"
serde = { version = "1", features = ["derive"] }
serde_json = "1"
sha2 = "0.10"
sqlx = { version = "0.7", default-features = false, features = ["runtime-tokio", "sqlite"] }
tokio = { version = "1", features = ["full"] }
tracing = "0.1"
tracing-subscriber = "0.3"
walkdir = "2"
zip = { version = "0.6", default-features = false, features = ["deflate"] }
