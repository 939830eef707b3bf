[package]
name = "maiq_parser"
version = "0.1.0"
edition = "2021"
publish = false

[dependencies]
anyhow = "1"
chrono = "0.4"
colored = "2"
dotenvy = "0.15"
reqwest = "0.11"
serde = { version = "1", features = ["derive"] }
serde_json = "1"
sha2 = "0.10"
tl = "0.7"
tokio = { version = "1", features = ["rt-multi-thread", "macros"] }
