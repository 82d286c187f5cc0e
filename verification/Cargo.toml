[package]
name = "nbody"
version = "0.1.0"
edition = "2021"
publish = false

[dependencies]
bincode = "1.3"
flate2 = "1"
futures-util = "0.3"
serde = { version = "1", features = ["derive"] }
tokio = { version = "1", features = ["macros", "net", "rt-multi-thread", "sync"] }
tokio-tungstenite = "*"
tsify = "*"
wasm-bindgen = "0.2"
