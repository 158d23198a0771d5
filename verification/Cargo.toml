[package]
name = "panda"
version = "0.1.0"
edition = "2021"
publish = false

[dependencies]
chrono = { version = "*", default-features = false, features = ["std"] }
urlencoding = "*"
fantoccini = { version = "*", default-features = false, features = ["rustls-tls"] }
tokio = { version = "*", features = ["rt", "time"] }

[dev-dependencies]
regex = "*"
