[package]
name = "sentinel"
version = "0.1.0"
edition = "2021"
publish = false

[dependencies]
anyhow = "1"
argon2 = "0.5"
axum = "0.8"
axum-extra = { version = "0.10", features = ["cookie"] }
clap = { version = "4", features = ["derive"] }
rand = "*"
rusqlite = { version = "*", features = ["bundled"] }
serde = { version = "1", features = ["derive"] }
serde_json = "1"
signal-hook = "0.3"
subtle = "2"
tokio = { version = "1", features = ["macros", "rt-multi-thread", "net"] }
toml = "*"
totp-rs = "5"
tower-http = { version = "*", features = ["fs"] }
ureq = "2"
