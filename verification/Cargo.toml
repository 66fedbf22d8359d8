[package]
name = "calendar_core"
version = "0.1.0"
edition = "2021"
publish = false

[dependencies]
argon2 = "=0.5.3"
chacha20poly1305 = "=0.10.1"
ical = "=0.11.0"
icu = "2"
jiff = "=0.2.39"
logind-zbus = "5"
quick-xml = "=0.37.5"
rand = "=0.8.8"
reqwest = { version = "=0.12.28", default-features = false, features = ["rustls-tls"] }
secret-service = { version = "=5.2.0", features = ["rt-tokio-crypto-rust"] }
serde = { version = "=1.0.229", features = ["derive"] }
serde_json = "=1.0.154"
tokio = { version = "=1.54.1", features = ["macros", "rt-multi-thread", "sync", "time"] }
tracing = "=0.1.44"
uuid = { version = "=1.29.0", features = ["v4"] }
zbus = { version = "=5.19.0", features = ["tokio"] }
zeroize = "=1.9.1"
