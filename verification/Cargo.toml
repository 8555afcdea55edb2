[package]
name = "shibei"
version = "0.1.0"
edition = "2021"
publish = false

[dependencies]
argon2 = "=0.5.3"
base64 = "=0.22.1"
chacha20poly1305 = "=0.10.1"
chrono = "=0.4.45"
clap = { version = "=4.6.7", features = ["derive"] }
flate2 = "=1.1.10"
hkdf = "=0.12.4"
keyring = { version = "=3.6.3", features = ["apple-native", "windows-native", "linux-native"] }
rand = "=0.8.8"
rusqlite = { version = "=0.32.1", features = ["bundled"] }
serde = { version = "=1.0.229", features = ["derive"] }
serde_json = "=1.0.154"
sha2 = "=0.10.9"
syn = { version = "=2.0.119", features = ["full"] }
thiserror = "=2.0.21"
uuid = { version = "=1.29.0", features = ["v4"] }
zeroize = "=1.9.1"
