[package]
name = "gatepup"
version = "1.0.0"
edition = "2021"
publish = false

[dependencies]
arc-swap = "1"
async-compression = { version = "0.4", features = ["tokio", "gzip", "brotli"] }
base64 = "0.22"
bytes = "1"
clap = { version = "4", features = ["derive"] }
futures-util = "0.3"
http = "1"
http-body-util = "0.1"
hyper = { version = "1", features = ["full"] }
hyper-rustls = { version = "0.27", default-features = false, features = ["http1", "ring", "native-tokio", "tls12"] }
hyper-util = { version = "0.1", features = ["full"] }
ipnet = "2"
prometheus = { version = "0.13", default-features = false }
rustls-pemfile = "2"
serde = { version = "1", features = ["derive"] }
serde_json = "1"
thiserror = "2"
tokio = { version = "1", features = ["full"] }
tokio-rustls = { version = "0.26", default-features = false, features = ["ring", "tls12", "logging"] }
tokio-util = { version = "0.7", features = ["io"] }
tracing = "0.1"
tracing-subscriber = { version = "0.3", features = ["json", "env-filter"] }
url = "2"
