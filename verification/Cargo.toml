[package]
name = "ovh_logs"
version = "0.1.0"
edition = "2021"
publish = false

[dependencies]
chrono = "0.4"
bytes = "1"
clap = { version = "4", features = ["derive"] }
reqwest = { version = "0.12", default-features = false, features = ["blocking", "rustls-tls"] }
