[package]
name = "recognition"
version = "0.1.0"
edition = "2021"
publish = false

[dependencies]
md5 = "=0.7.0"
serde = { version = "=1.0.229", features = ["derive"] }
serde_json = "=1.0.154"
chrono = "=0.4.45"
log = "=0.4.35"
tokio = { version = "=1.54.1", features = ["process", "sync", "rt-multi-thread", "macros", "fs"] }
image = { version = "=0.25.10", default-features = false, features = ["png", "jpeg", "bmp", "webp"] }
imageproc = { version = "=0.25.1", default-features = false }
ndarray = "=0.17.2"
ort = { version = "=2.0.0-rc.15", default-features = false, features = ["std", "ndarray", "load-dynamic"] }
