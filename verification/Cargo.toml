[package]
name = "command_runner"
version = "0.1.0"
edition = "2021"
publish = false

[dependencies]
aes-gcm = "=0.10.3"
base64 = "=0.22.1"
rand = "=0.8.8"
russh = { version = "0.60.3", default-features = false, features = ["ring"] }
serde = { version = "1", features = ["derive"] }
serde_json = "1"
sha2 = "=0.10.9"
tokio = { version = "1", features = ["full"] }
