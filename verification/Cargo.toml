[package]
name = "hexchat_backend"
version = "0.1.0"
edition = "2021"
publish = false

[dependencies]
anyhow = "1"
base64 = "0.22"
bytes = "1"
camino = "1"
hmac = "0.12"
parking_lot = "0.12"
pbkdf2 = "0.12"
rand = "0.8"
rustls-pemfile = "2"
serde = { version = "1", features = ["derive"] }
sha2 = "0.10"
subtle = "2"
tokio = { version = "1", features = ["net", "io-util", "rt-multi-thread", "macros", "time"] }
tokio-rustls = "0.25"
toml = "0.8"
tracing = "0.1"
webpki-roots = "0.26"
