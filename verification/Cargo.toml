[package]
name = "rustadmin_transport"
version = "0.1.0"
edition = "2021"
publish = false

[dependencies]
anyhow = "=1.0.104"
base64 = "=0.23.1"
bytes = "=1.12.1"
futures = "=0.3.34"
libc = "=0.2.191"
log = "=0.4.35"
quinn = "=0.11.12"
rcgen = "=0.14.10"
serde = { version = "=1.0.229", features = ["derive"] }
serde_json = "=1.0.154"
sha2 = "=0.11.1"
socket2 = "=0.6.5"
sodiumoxide = "=0.2.7"
thiserror = "=1.0.69"
tokio = { version = "=1.54.1", features = ["full"] }
tokio-socks = "=0.5.3"
tokio-util = { version = "=0.7.20", features = ["full"] }
protobuf = "=3.7.2"
rand = "=0.8.8"
winapi = { version = "=0.3.9", features = ["mstcpip", "winsock2", "ws2def"] }
