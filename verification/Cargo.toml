[package]
name = "persea"
version = "0.1.0"
edition = "2021"
publish = false

[dependencies]
argon2 = { version = "=0.5.3", features = ["std"] }
axum = "=0.8.9"
axum-server = { version = "*", features = ["tls-rustls-no-provider"] }
base64 = "=0.22.1"
bytes = "=1.12.1"
chrono = "=0.4.45"
clap = { version = "=4.6.7", features = ["derive"] }
dns-lookup = "=4.0.2"
hex = "=0.4.3"
ipnetwork = "=0.21.1"
libc = "=0.2.191"
openidconnect = "=4.1.0"
rand = "=0.10.3"
rcgen = "=0.14.10"
reqwest = { version = "=0.12.28", default-features = false, features = ["rustls-tls", "json"] }
ring = "=0.17.14"
rusqlite = { version = "=0.41.1", features = ["bundled"] }
serde = { version = "=1.0.229", features = ["derive"] }
serde_json = "=1.0.154"
sha2 = "=0.10.9"
socket2 = "=0.6.5"
ssh-key = { version = "=0.6.7", features = ["ed25519", "getrandom"] }
subtle = "=2.6.1"
tokio = { version = "=1.54.1", features = ["full"] }
tower = { version = "=0.5.3", features = ["util"] }
tracing = "=0.1.44"
tracing-subscriber = { version = "=0.3.23", features = ["env-filter", "json"] }
url = "=2.5.8"
urlencoding = "=2.1.3"
uuid = { version = "=1.29.0", features = ["v4"] }
