[package]
name = "tarpc"
version = "0.1.0"
edition = "2021"
publish = false

[dependencies]
anyhow = "1"
futures = "0.3"
log = "0.4"
pin-project = "1"
rand = "0.8"
tokio = { version = "1", features = ["macros", "rt", "sync", "time"] }
