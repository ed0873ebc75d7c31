[package]
name = "lockedenv"
version = "0.3.0"
edition = "2021"
publish = false

[dependencies]
dotenvy = "0.15"
serde = "1"
tracing = "0.1"
url = "2"
zeroize = "1"
