[package]
name = "cabas"
version = "0.1.0"
edition = "2021"
publish = false

[dependencies]
bip39 = "=2.2.2"
chacha20poly1305 = "=0.10.1"
getrandom = "=0.3.4"
serde = { version = "=1.0.229", features = ["derive"] }
postcard = { version = "=1.1.3", features = ["alloc"] }
tokio = { version = "1", features = ["rt-multi-thread", "macros", "net", "sync"] }
axum = { version = "0.8", features = ["ws"] }
