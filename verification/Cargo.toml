[package]
name = "textcase-cli"
version = "0.1.0"
edition = "2021"
publish = false

[dependencies]
serde_json = "1"
quick-xml = "0.37"
flate2 = "1"
zip = { version = "2", default-features = false, features = ["deflate"] }
serde = { version = "1", features = ["derive"] }
clap = { version = "4", features = ["derive"] }
memmap2 = "0.9"
reqwest = { version = "0.12", default-features = false, features = ["blocking", "rustls-tls"] }
