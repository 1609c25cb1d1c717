[package]
name = "updown"
version = "0.1.0"
edition = "2021"
publish = false

[dependencies]
anyhow = "*"
nanoid = "*"
reqwest = { version = "*", default-features = false }
tokio = { version = "*", features = ["macros", "rt-multi-thread", "time"] }
