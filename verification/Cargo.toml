[package]
name = "adaclaw"
version = "0.1.0"
edition = "2021"
publish = false

[dependencies]
aes = "0.8"
anyhow = "1"
async-stream = "0.3"
async-trait = "0.1"
axum = "0.7"
base64 = "0.22"
cbc = { version = "0.1", features = ["alloc"] }
futures-util = "0.3"
hex = "0.4"
hmac = "0.12"
imap = "2"
lettre = { version = "0.11", default-features = false, features = ["builder", "hostname", "smtp-transport", "rustls-tls"] }
mailparse = "0.15"
native-tls = "0.2"
r2d2 = "0.8"
regex = "1"
reqwest = { version = "0.12", default-features = false, features = ["json", "multipart", "rustls-tls", "stream"] }
rusqlite = { version = "0.31", features = ["bundled"] }
secrecy = "0.8"
serde = { version = "1", features = ["derive"] }
serde_json = "1"
sha1 = "0.10"
sha2 = "0.10"
sqlite-vec = "0.1"
thiserror = "1"
tokio = { version = "1", features = ["full"] }
tokio-tungstenite = { version = "0.24", features = ["rustls-tls-webpki-roots"] }
tracing = "0.1"
urlencoding = "2"
uuid = { version = "1", features = ["v4"] }
