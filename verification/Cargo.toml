[package]
name = "ktail"
version = "0.3.4"
edition = "2021"
publish = false

[dependencies]
regex = "=1.13.1"
directories = "=6.0.0"
uuid = { version = "=1.29.0", features = ["v4"] }
base64 = "=0.23.1"
chrono = "=0.4.45"
url = "=2.5.8"
serde = { version = "=1.0.229", features = ["derive"] }
serde_json = "=1.0.154"
serde_yaml = "=0.9.34"
tokio = { version = "=1.54.1", features = ["rt-multi-thread", "sync", "time"] }
reqwest = { version = "=0.12.28", default-features = false, features = ["json", "rustls-tls"] }
crc = "1"
encoding = "0.2"
