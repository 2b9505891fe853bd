[package]
name = "harddrive-party"
version = "0.1.0"
edition = "2021"
publish = false

[dependencies]
anyhow = "=1.0.104"
axum = { version = "=0.8.9", features = ["ws"] }
base64 = "=0.22.1"
bincode-next = { version = "=2.1.0", features = ["serde"] }
clap = { version = "=4.6.7", features = ["derive"] }
cryptoxide = "=0.4.4"
ed25519-dalek = { version = "=2.2.0", features = ["pkcs8"] }
env_logger = "0.11"
futures = "=0.3.34"
hex = "=0.4.3"
key-to-animal = "=0.0.1"
local-ip-address = "=0.6.13"
log = "0.4"
lru = "=0.16.4"
mdns-sd = "=0.17.2"
mqtt-protocol = "*"
quinn = "=0.11.12"
rand = "=0.8.8"
rcgen = "=0.12.1"
reqwest = { version = "=0.12.28", default-features = false, features = ["stream"] }
ring = "=0.17.14"
rustls = { version = "=0.23.46", default-features = false, features = ["ring", "std"] }
serde = { version = "=1.0.229", features = ["derive"] }
sled = "=0.34.7"
stunclient = "=0.4.2"
tokio = { version = "=1.54.1", features = ["fs", "io-util", "macros", "net", "rt-multi-thread", "signal", "sync", "time"] }
tokio-tungstenite = "=0.29.0"
tower-http = { version = "=0.6.11", features = ["fs"] }
x509-parser = { version = "=0.16.0", features = ["verify"] }
