[package]
name = "rate_mirrors"
version = "0.1.0"
edition = "2021"
publish = false

[dependencies]
rand = "0.9"
reqwest = { version = "0.12", features = ["json"] }
serde = { version = "1", features = ["derive"] }
structopt = "0.3"
tokio = { version = "1", features = ["rt-multi-thread"] }
url = "2"
