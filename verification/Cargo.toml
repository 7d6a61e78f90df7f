[package]
name = "rustis"
version = "0.1.0"
edition = "2021"
publish = false

[dependencies]
bytes = "1"
itoa = "1"
dtoa = "1"
futures = "0.3"
log = "0.4"
smallvec = "1"
tokio = { version = "1", features = ["net", "io-util", "time", "rt"] }
tokio-util = { version = "0.7", features = ["codec"] }
