[package]
name = "pinnacle"
version = "0.1.0"
edition = "2021"
publish = false

[dependencies]
indexmap = "=2.14.2"
tokio = { version = "=1.54.1", default-features = false, features = ["sync", "process", "net", "rt"] }
serde = { version = "=1.0.229", features = ["derive"] }
toml = "=0.8.23"
passfd = "0.1"
sysinfo = "*"
xdg = "2"
