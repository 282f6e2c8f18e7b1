[package]
name = "pt_rs"
version = "0.1.0"
edition = "2021"
publish = false

[dependencies]
chrono = "=0.4.45"
scraper = { version = "=0.17.1", features = ["deterministic"] }
reqwest = { version = "=0.11.27", default-features = false, features = ["cookies", "brotli", "rustls-tls"] }
sqlite = { version = "=0.31.1", features = ["bundled"] }
tokio = { version = "=1.54.1", features = ["macros", "rt-multi-thread"] }
clap = { version = "=4.6.7", features = ["derive"] }
env_logger = "=0.10.2"
log = "=0.4.35"
itertools = "=0.11.0"
