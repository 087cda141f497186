[package]
name = "deps-lsp"
version = "0.1.0"
edition = "2021"
publish = false

[dependencies]
pep440_rs = "=0.7.3"
node-semver = "=2.2.0"
urlencoding = "=2.1.3"
serde_json = "=1.0.154"
serde = { version = "=1.0.229", features = ["derive"] }
tokio = { version = "=1.54.1", features = ["rt-multi-thread", "macros", "io-std", "fs", "sync", "time"] }
tower-lsp-server = "=0.23.0"
reqwest = { version = "0.12", default-features = false, features = ["rustls-tls"] }
