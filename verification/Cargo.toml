[package]
name = "backup_prune"
version = "0.1.0"
edition = "2021"
publish = false

[dependencies]
anyhow = "=1.0.104"
chrono = { version = "=0.4.45", default-features = false, features = ["std"] }
clap = { version = "=4.6.7", features = ["derive"] }
dropbox-sdk = "=0.18.1"
thiserror = "=1.0.69"
