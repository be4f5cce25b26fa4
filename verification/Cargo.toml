[package]
name = "ferrix"
version = "0.1.0"
edition = "2021"
publish = false

[dependencies]
etherparse = "*"
tokio = { version = "1", default-features = false, features = ["macros", "rt-multi-thread"] }
tokio-tun = "*"
