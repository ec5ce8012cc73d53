[package]
name = "russh"
version = "0.1.0"
edition = "2021"
publish = false

[dependencies]
byteorder = "1"
futures = "0.3"
russh-cryptovec = "0.7"
russh-keys = "0.37"
tokio = { version = "1", features = ["io-util", "net", "rt", "sync", "time", "macros"] }
