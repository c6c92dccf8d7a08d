[package]
name = "vidiup"
version = "0.1.0"
edition = "2021"
publish = false

[dependencies]
actix-files = "=0.7.2"
actix-web = "=4.18.1"
async-trait = "=0.1.92"
chrono = { version = "=0.4.45", features = ["serde"] }
dirs = "=7.0.0"
fastrand = "=2.5.0"
invidious = { version = "=0.7.8", default-features = false, features = ["reqwest_async"] }
log = "=0.4.34"
serde = { version = "=1.0.229", features = ["derive"] }
serde_json = "=1.0.154"
simplelog = "=0.12.2"
tokio = { version = "=1.54.1", features = ["full"] }
