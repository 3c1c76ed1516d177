[package]
name = "cacia"
version = "0.1.0"
edition = "2021"
publish = false

[dependencies]
chrono = "0.4"
clap = "2"
druid = "0.7"
ed25519-dalek = "1.0.1"
hex = "0.4"
rand = "0.7"
serde = { version = "1", features = ["derive"] }
serde_json = "1"
sha2 = "0.9"
tokio = { version = "1", features = ["full"] }
warp = "0.3"
