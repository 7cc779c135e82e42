[package]
name = "emberplus"
version = "0.1.0"
edition = "2021"
publish = false

[dependencies]
rasn = "*"
tokio = { version = "1", features = ["net", "io-util", "sync", "time", "rt", "macros"] }
tokio-util = "0.7"
