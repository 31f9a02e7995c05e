[package]
name = "lightscrape"
version = "0.1.0"
edition = "2021"
publish = false

[dependencies]
html2md = "=0.2.17"
regex = "=1.13.1"
tokio = { version = "=1.54.1", features = ["full"] }
reqwest = { version = "=0.12.28", default-features = false, features = ["rustls-tls"] }
indicatif = "=0.18.6"
console = "=0.16.6"
dialoguer = "=0.12.0"
futures = "=0.3.34"
signal-hook = "=0.4.6"
mdbook = { version = "=0.4.52", default-features = false }
mdbook-epub = "=0.4.51"
