[package]
name = "plumbrs"
version = "0.1.0"
edition = "2021"
publish = false

[dependencies]
anyhow = "1"
atomic-time = "=1.0.0"
bytes = "1"
clap = { version = "4", features = ["derive"] }
compio = { version = "=0.19.2", features = ["net"] }
crossterm = "=0.29.0"
ctor = "=1.0.13"
h2 = "=0.4.20"
hdrhistogram = { version = "=7.6.0", default-features = false }
http = "=1.5.0"
http-body-util = "0.1"
http_wire = "=0.10.0"
httparse = "=1.10.1"
hyper = { version = "=1.12.0", features = ["full"] }
hyper-util = { version = "=0.1.21", features = ["full"] }
mimalloc = "*"
pretty_env_logger = "*"
quanta = "=0.13.0"
rand = "=0.10.3"
reqwest = { version = "=0.12.28", default-features = false, features = ["rustls-tls", "http2"] }
rmcp = "=3.8.0"
rustls = { version = "=0.23.46", default-features = false, features = ["ring", "std", "tls12"] }
scopeguard = "1"
tokio = { version = "=1.54.1", features = ["full"] }
tokio-metrics = "=0.5.2"
tokio-rustls = { version = "=0.26.6", default-features = false, features = ["ring", "tls12"] }
tokio-uring = "=0.5.0"
tokio-util = "=0.7.20"
webpki-roots = "=1.0.10"
