[package]
name = "pocker"
version = "0.1.0"
edition = "2021"
publish = false

[dependencies]
anstyle = "=1.0.14"
base64 = "=0.22.1"
clap = { version = "=4.6.7", features = ["derive"] }
directories = "=6.0.0"
fastrand = "=2.5.0"
flate2 = "=1.1.10"
futures-util = "=0.3.34"
hex = "=0.4.3"
httparse = "=1.10.1"
httpdate = "=1.0.3"
indicatif = "=0.17.11"
libc = "=0.2.191"
percent-encoding = "=2.3.2"
reqwest = { version = "=0.12.28", default-features = false, features = ["rustls-tls", "stream", "json"] }
serde = { version = "=1.0.229", features = ["derive"] }
serde_json = "=1.0.154"
serde_yml = "=0.0.12"
sha2 = "=0.10.9"
tar = "=0.4.46"
tempfile = "=3.27.0"
thiserror = "=2.0.21"
tokio = { version = "=1.54.1", features = ["full"] }
tokio-util = { version = "=0.7.20", features = ["io", "io-util"] }
tracing = "=0.1.44"
tracing-subscriber = { version = "=0.3.23", features = ["env-filter"] }
url = "=2.5.8"
