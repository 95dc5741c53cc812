[package]
name = "shasha"
version = "0.1.0"
edition = "2021"
publish = false

[dependencies]
anyhow = "1"
clap = { version = "4", features = ["derive"] }
flate2 = "1"
sha1 = { version = "0.10", features = ["compress"] }
sha2 = { version = "0.10", features = ["compress"] }
tempfile = "3"
