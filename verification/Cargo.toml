[package]
name = "reclipse"
version = "0.1.0"
edition = "2021"
publish = false

[dependencies]
reqwest = { version = "=0.12.28", default-features = false, features = ["stream", "rustls-tls"] }
clap = { version = "=4.6.7", features = ["derive"] }
tokio = { version = "=1.54.1", features = ["full"] }
anyhow = "=1.0.104"
thiserror = "=1.0.69"
indicatif = "=0.17.11"
futures = "=0.3.34"
serde_json = "=1.0.154"
tar = "=0.4.46"
tempfile = "=3.27.0"
bzip2 = "=0.4.4"
zstd = "=0.13.4"
