[package]
name = "codex_administrator"
version = "0.1.0"
edition = "2021"
publish = false

[dependencies]
anyhow = "=1.0.104"
base64 = "=0.22.1"
http = "=1.5.0"
serde = { version = "=1.0.229", features = ["derive"] }
serde_json = "=1.0.154"
sha2 = "=0.10.9"
zeroize = "=1.9.1"
clap = { version = "4", features = ["derive"] }
toml_edit = "0.22"
ureq = "2"
directories = "5"
rand = "0.9"
filetime = "0.2"
