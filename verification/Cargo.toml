[package]
name = "agent-mux"
version = "0.1.0"
edition = "2021"
publish = false

[dependencies]
anyhow = "1"
async-broadcast = "0.7"
async-net = "2"
async-trait = "0.1"
async-tungstenite = "0.28"
base64 = "0.22"
crypto_box = "0.9"
flume = "0.11"
futures = "0.3"
futures-rustls = "0.26"
futures-util = "0.3"
getrandom = "0.3"
log = "0.4"
memmap2 = "0.9"
parking_lot = "0.12"
serde = { version = "1", features = ["derive"] }
serde_json = "1"
sha2 = "0.10"
shell-words = "1"
smol = "2"
thiserror = "1"
url = "2"
uuid = { version = "1", features = ["v4"] }
webpki-roots = "0.26"
