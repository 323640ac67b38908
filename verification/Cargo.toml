[package]
name = "wasi_vfs"
version = "0.1.0"
edition = "2021"
publish = false

[dependencies]
generational-arena = "0.2"
bytes = "1"
cooked-waker = "5"
serde = { version = "1", features = ["derive"] }
bincode = "1"
tokio = { version = "1", default-features = false, features = ["sync", "io-util"] }
tracing = "0.1"
