[package]
name = "tg_export"
version = "0.1.0"
edition = "2021"
publish = false

[dependencies]
anyhow = "*"
chrono = "*"
clap = { version = "*", features = ["derive"] }
directories-next = "*"
fs-err = "*"
indexmap = "*"
log = "*"
serde = { version = "*", features = ["derive"] }
serde_json = "*"
stop-words = "*"
thiserror = "*"
