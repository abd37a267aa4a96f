[package]
name = "net_helper"
version = "0.1.0"
edition = "2021"
publish = false

[dependencies]
libc = "0.2"
thiserror = "2"
tokio = { version = "1", features = ["net", "rt", "io-util"] }
