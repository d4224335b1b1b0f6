[package]
name = "depotmanager"
version = "0.1.0"
edition = "2021"
publish = false

[dependencies]
aes = "0.8"
cbc = "0.1"
base64 = "0.22"
hex = "0.4"
sha1 = "0.10"
rsa = "0.9"
rand = "0.8"
zstd = "0.13"
lzma-rs = "0.3"
zip = { version = "2", default-features = false, features = ["deflate"] }
flate2 = "1"
regex = "1"
serde = { version = "1", features = ["derive"] }
serde_json = "1"
time = "0.3"
prost = "0.13"
bytes = "1"
anyhow = "1"
thiserror = "1"
dashmap = "6"
parking_lot = "0.12"
tokio = { version = "1", features = ["full"] }
futures-util = "0.3"
reqwest = { version = "0.12", default-features = false, features = ["json", "rustls-tls"] }
tokio-tungstenite = { version = "0.24", features = ["rustls-tls-webpki-roots"] }
url = "2"
