[package]
name = "paramspider"
version = "0.1.0"
edition = "2021"
publish = false

[dependencies]
url = "2"
rand = "0.9"
reqwest = { version = "0.12", default-features = false, features = ["blocking", "rustls-tls"] }
clap = { version = "4", features = ["derive"] }
