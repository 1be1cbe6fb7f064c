[package]
name = "sinp"
version = "0.1.0"
edition = "2021"
publish = false

[dependencies]
base64 = "=0.23.1"
chrono = "=0.4.45"
ed25519-dalek = "=3.0.0"
rustls = { version = "=0.23.45", default-features = false, features = ["ring", "logging", "std", "tls12"] }
rustls-pemfile = "=2.2.0"
serde_json = "=1.0.151"
sha2 = "=0.11.0"
tokio = { version = "=1.53.2", features = ["rt-multi-thread", "net", "io-util", "macros", "time"] }
tokio-rustls = { version = "=0.26.6", default-features = false, features = ["ring", "logging", "tls12"] }
tracing = "=0.1.44"
tracing-subscriber = "=0.3.23"
uuid = { version = "=1.27.0", features = ["v4"] }
