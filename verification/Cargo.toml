[package]
name = "nearclip"
version = "0.1.0"
edition = "2021"
publish = false

[dependencies]
aes-gcm = "0.10"
base64 = "0.22"
ed25519-dalek = "2"
getrandom = "0.3"
hex = "0.4"
hkdf = "0.12"
sha2 = "0.10"
x25519-dalek = { version = "2", features = ["static_secrets"] }
hostname = "0.4"
serde = { version = "1", features = ["derive"] }
serde_json = "1"
tokio = { version = "1", features = ["net", "io-util", "time", "rt", "rt-multi-thread", "macros", "sync", "fs"] }
uuid = { version = "1", features = ["v4"] }
qrcode = "0.14"
mdns-sd = "*"
log = "0.4"
keyring = "3"
thiserror = "2"
