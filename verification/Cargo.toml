[package]
name = "iyam_dsh"
version = "0.2.15"
edition = "2021"
publish = false

[dependencies]
base64 = "0.22"
semver = "1"
serde = { version = "1", features = ["derive"] }
serde_json = "1"
dirs = "5"
log = "0.4"
env_logger = "0.11"
libc = "0.2"
reqwest = { version = "0.12", default-features = false, features = ["json", "rustls-tls"] }

[dev-dependencies]
regex = "1"
