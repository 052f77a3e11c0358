[package]
name = "srt_control"
version = "0.1.0"
edition = "2021"
publish = false

[dependencies]
bytes = "=0.5.6"
failure = { version = "=0.1.8", default-features = false, features = ["std"] }
log = "0.4"

[dev-dependencies]
hex = "=0.4.3"
