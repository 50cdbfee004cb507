[package]
name = "playlist_maker"
version = "0.1.0"
edition = "2021"
publish = false

[dependencies]
rspotify = { version = "*", default-features = false, features = ["client-reqwest", "reqwest-rustls-tls", "cli"] }
tokio = { version = "*", features = ["rt-multi-thread", "macros", "time"] }
futures-util = "*"
dirs = "*"
env_logger = "*"
