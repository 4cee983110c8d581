[package]
name = "release_aggregator"
version = "0.1.0"
edition = "2021"
publish = false

[dependencies]
anyhow = "=1.0.104"
chrono = "=0.4.45"
futures = "=0.3.34"
rspotify = { version = "=0.16.1", default-features = false, features = ["client-reqwest", "reqwest-rustls-tls", "cli"] }
tokio = { version = "=1.53.2", features = ["macros", "rt-multi-thread", "time"] }
