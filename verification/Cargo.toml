[package]
name = "snitch"
version = "0.1.0"
edition = "2021"
publish = false

[dependencies]
regex = "1"
toml = "0.8"
serde_json = "1"
comfy-table = "7"
serde = { version = "1", features = ["derive"] }
clap = { version = "4", features = ["derive"] }
reqwest = { version = "0.12", default-features = false, features = ["json", "rustls-tls"] }
tokio = { version = "1", features = ["macros", "rt-multi-thread"] }
threadpool = "1"
lazy_static = "1"
sqlite = "*"
