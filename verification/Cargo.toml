[package]
name = "fastdl"
version = "0.1.0"
edition = "2021"
publish = false

[dependencies]
anyhow = "*"
argh = "*"
futures-util = "*"
indicatif = "*"
reqwest = { version = "*", default-features = false, features = ["rustls-tls", "stream"] }
tokio = { version = "*", features = ["rt-multi-thread", "macros", "sync"] }
