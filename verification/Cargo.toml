[package]
name = "quilt_mesh"
version = "0.1.0"
edition = "2021"
publish = false

[dependencies]
anyhow = "=1.0.104"
axum = "=0.7.9"
axum-server = { version = "=0.7.3", features = ["tls-rustls"] }
clap = { version = "=4.6.7", features = ["derive", "env"] }
futures = "=0.3.34"
hex = "=0.4.3"
hostname = "=0.4.2"
netlink-packet-route = "=0.19.0"
prost = "=0.13.5"
rand = "=0.8.8"
reqwest = { version = "=0.12.28", default-features = false, features = ["json", "rustls-tls"] }
rtnetlink = "=0.14.1"
rusqlite = { version = "=0.31.0", features = ["bundled"] }
rustls = { version = "=0.23.46", default-features = false, features = ["aws-lc-rs", "std"] }
serde = { version = "=1.0.229", features = ["derive"] }
serde_json = "=1.0.154"
sha2 = "=0.10.9"
tokio = { version = "=1.54.1", features = ["full"] }
tokio-util = "=0.7.20"
tonic = { version = "=0.12.3", features = ["tls"] }
tracing = "=0.1.44"
tracing-subscriber = "=0.3.23"
uuid = { version = "=1.29.0", features = ["v4"] }
