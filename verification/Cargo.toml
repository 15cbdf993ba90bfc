[package]
name = "clash_ui"
version = "0.1.0"
edition = "2021"
publish = false

[dependencies]
serde = { version = "=1.0.229", features = ["derive"] }
serde_json = "=1.0.154"
serde-saphyr = "=2.0.0"
rand = "=0.8.8"
chrono = "=0.4.45"
listeners = "*"
