[package]
name = "irken"
version = "0.1.0"
edition = "2021"
publish = false

[dependencies]
irc = { version = "=1.1.0", default-features = false, features = ["channel-lists", "tls-rust"] }
tokio = { version = "=1.54.1", features = ["rt", "macros"] }
futures = "=0.3.34"
