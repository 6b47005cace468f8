[package]
name = "oxc_svelte_backend"
version = "0.1.0"
edition = "2021"
publish = false

[dependencies]
serde_json = "1"
serde = { version = "1", features = ["derive"] }
schemars = "0.8"
rustc-hash = "2"
tokio = { version = "1", features = ["rt-multi-thread", "macros"] }
