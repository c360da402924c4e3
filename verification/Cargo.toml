[package]
name = "baller"
version = "0.1.0"
edition = "2021"
publish = false

[dependencies]
semver = "=1.0.28"
regex = "=1.13.1"
serde = { version = "=1.0.229", features = ["derive"] }
serde_json = "=1.0.154"
toml = "=0.8.23"
clap = { version = "=4.6.7", features = ["derive"] }
colored = "=2.2.0"
reqwest = { version = "=0.12.28", default-features = false, features = ["blocking", "json", "rustls-tls"] }
rusqlite = { version = "=0.31.0", features = ["bundled"] }
tracing = "=0.1.44"
indicatif = "=0.17.11"
flate2 = "=1.1.10"
tar = "=0.4.46"
zip = { version = "=2.6.1", default-features = false, features = ["deflate"] }
xz2 = "=0.1.7"
bzip2 = "=0.4.4"
base64 = "=0.22.1"
hex = "=0.4.3"
sha2 = "0.10"
