[package]
name = "ssh_workspace"
version = "1.1.0"
edition = "2021"
publish = false

[dependencies]
dirs = "6"
keyring = { version = "3", default-features = false, features = ["apple-native", "windows-native", "async-secret-service", "async-io", "crypto-rust"] }
serde = { version = "1", features = ["derive"] }
serde_json = "1"
serialport = { version = "4", default-features = false }
ssh2 = { version = "0.9", features = ["vendored-openssl"] }
