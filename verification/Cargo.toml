[package]
name = "proxy_state"
version = "0.1.0"
edition = "2021"
publish = false

[dependencies]
pem = "3"
sha2 = "0.10"
clap = "2"
notify = "4"
toml = "0.4"
serde = { version = "1", features = ["derive"] }
