[package]
name = "zot"
version = "0.4.0"
edition = "2021"
publish = false

[dependencies]
anyhow = "=1.0.104"
clap = { version = "=4.6.7", features = ["derive"] }
directories = "=6.0.0"
dom_smoothie = "=0.19.0"
fastembed = { version = "=5.17.4", default-features = false, features = ["hf-hub-rustls-tls"] }
md-5 = "=0.10.6"
oxidize-pdf = { version = "=5.5.6", default-features = false, features = ["compression"] }
reqwest = { version = "=0.12.28", default-features = false, features = ["blocking", "json", "rustls-tls"] }
serde = { version = "=1.0.229", features = ["derive"] }
serde_json = "=1.0.154"
tantivy = "=0.24.2"
urlencoding = "=2.1.3"
