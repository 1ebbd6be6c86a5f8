[package]
name = "chaos"
version = "0.1.0"
edition = "2021"

[dependencies]
anyhow = "1"
ctrlc = "3"
rand = "0.8"
serde = { version = "1", features = ["derive"] }
serde_json = "1"
tokio = { version = "1", features = ["macros", "rt-multi-thread", "sync", "time"] }
