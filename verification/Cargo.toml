[package]
name = "airplay-bridge"
version = "0.1.0"
edition = "2021"
publish = false

[dependencies]
alac-encoder = "*"
android_logger = "*"
anyhow = "1"
base64 = "0.22"
chacha20poly1305 = "0.10"
hkdf = "0.12"
jni = "0.21"
log = "0.4"
rand = "0.8"
serde_json = "1"
sha2 = "0.10"
tokio = { version = "1", features = ["rt-multi-thread", "net", "io-util", "sync", "time"] }
x25519-dalek = { version = "2", features = ["static_secrets"] }
