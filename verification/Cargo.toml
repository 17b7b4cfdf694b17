[package]
name = "partystation"
version = "0.1.0"
edition = "2021"
publish = false

[dependencies]
rand = "0.8"
serde = { version = "1", features = ["derive"] }
serde_json = "1"
axum = { version = "0.8", features = ["ws"] }
tokio = { version = "1", features = ["full"] }
futures-util = { version = "0.3", features = ["sink"] }
if-addrs = "*"
mdns-sd = "*"
tower-http = { version = "0.6", features = ["fs"] }
slint = { version = "1", default-features = false, features = ["std", "compat-1-2"] }
