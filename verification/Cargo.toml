[package]
name = "kube_vault"
version = "0.1.0"
edition = "2021"
publish = false

[dependencies]
askama = "0.8"
base64 = "0.10"
chrono = "0.4"
clap = "2"
dotenv = "0.15"
failure = "0.1"
lazy_static = "1"
openssl-probe = "0.1"
reqwest = "0.9"
serde = { version = "1", features = ["derive"] }
serde_derive = "1"
serde_json = "1"
serde_yaml = "0.8"
url = "1.7"
