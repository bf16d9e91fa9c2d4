[package]
name = "im"
version = "0.1.0"
edition = "2021"
publish = false

[dependencies]
serde_json = "=1.0.154"
serde = { version = "=1.0.229", features = ["derive"] }
serde_yaml = "=0.9.34"
anyhow = "=1.0.104"
tokio = { version = "=1.54.1", features = ["full"] }
etcd-client = "=0.8.4"
axum = "=0.8.9"
clap = { version = "=4.6.7", features = ["derive"] }
enum_dispatch = "=0.3.13"
fastrace = "=0.7.19"
logforth = { version = "=0.30.1", features = ["starter-log", "append-fastrace"] }
log = "=0.4.35"
rand = "=0.10.3"
