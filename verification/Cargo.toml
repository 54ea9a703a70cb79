[package]
name = "cryptolab"
version = "0.1.0"
edition = "2021"
publish = false

[dependencies]
chrono = "=0.4.45"
jsonwebtoken = "=9.3.1"
sha3 = "=0.10.9"
rand = "=0.8.8"
rsa = "=0.9.10"
axum = "=0.7.9"
tokio = { version = "=1.54.1", features = ["macros", "rt-multi-thread", "net", "time"] }
tower-http = { version = "=0.5.2", features = ["cors"] }
serde = { version = "=1.0.229", features = ["derive"] }
serde_json = { version = "=1.0.154", features = ["preserve_order"] }
rusqlite = { version = "=0.31.0", features = ["bundled"] }
dotenvy = "=0.15.7"
lettre = { version = "=0.11.23", default-features = false, features = ["builder", "smtp-transport", "tokio1", "tokio1-rustls-tls"] }
url = "=2.5.8"
colored = "=2.2.0"
wasm-bindgen = "=0.2.130"
