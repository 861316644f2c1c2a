[package]
name = "fire-dl"
version = "0.1.0"
edition = "2021"
publish = false

[dependencies]
url = "2"
regex = "1"
soup = "0.5"
reqwest = "0.11"
tokio = { version = "1", features = ["full"] }
tokio-stream = "0.1"
futures = "0.3"
indicatif = "0.17"
structopt = "0.3"
color-eyre = "0.6"
dotenvy = "0.15"
tracing = "0.1"
tracing-subscriber = "0.3"
