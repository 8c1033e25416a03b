[package]
name = "qbit_controller"
version = "0.1.0"
edition = "2021"
publish = false

[dependencies]
anyhow = "=1.0.104"
config = "=0.15.27"
fs-err = "=3.3.2"
indexmap = { version = "=2.14.2", features = ["serde"] }
log = "=0.4.35"
log4rs = "=1.4.0"
reqwest = { version = "=0.12.28", default-features = false, features = ["json", "cookies", "rustls-tls"] }
serde = { version = "=1.0.229", features = ["derive"] }
tokio = { version = "=1.54.1", features = ["macros", "rt-multi-thread"] }
