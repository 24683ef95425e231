[package]
name = "pty_mux"
version = "0.1.0"
edition = "2021"
publish = false

[dependencies]
portable-pty = "*"
serde = { version = "1", features = ["derive"] }
serde_json = "1"
