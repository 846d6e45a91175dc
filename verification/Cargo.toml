[package]
name = "responder"
version = "0.1.0"
edition = "2021"
publish = false

[dependencies]
futures = "0.3"
reqwest = { version = "*", default-features = false, features = ["blocking"] }
tokio = { version = "1", features = ["io-util", "macros", "net", "rt-multi-thread", "signal", "sync", "time"] }

[dev-dependencies]
bytes = "1"
tokio-util = { version = "0.7", features = ["codec"] }
