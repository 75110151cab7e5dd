[package]
name = "meetinizer"
version = "0.1.0"
edition = "2021"
publish = false

[dependencies]
anyhow = "=1.0.104"
async-stream = "=0.3.6"
axum = "=0.8.9"
axum-extra = { version = "=0.10.3", features = ["cookie"] }
chrono = { version = "=0.4.45", features = ["serde"] }
clap = { version = "=4.6.7", features = ["derive"] }
clap_complete = "=4.6.11"
config = { version = "=0.15.27", default-features = false, features = ["toml"] }
cookie = "=0.18.2"
futures-util = "=0.3.34"
jsonwebtoken = { version = "=10.4.0", features = ["rust_crypto"] }
mail-send = { version = "=0.7.0", default-features = false, features = ["builder", "ring", "tls12"] }
rand = "=0.9.5"
refinery = { version = "=0.10.0", features = ["rusqlite"] }
rpassword = "=7.5.4"
rusqlite = { version = "=0.41.1", features = ["bundled"] }
rust-argon2 = "=2.1.0"
serde = { version = "=1.0.229", features = ["derive"] }
serde_json = { version = "=1.0.154", features = ["raw_value"] }
tokio = { version = "=1.54.1", features = ["full"] }
tracing = "=0.1.44"
tracing-subscriber = "=0.3.23"
uri_encode = "=1.0.5"
urlencoding = "=2.1.3"
utoipa = "=5.5.0"
utoipa-axum = "=0.2.0"
uuid = { version = "=1.29.0", features = ["v4", "serde"] }
