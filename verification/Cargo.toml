[package]
name = "gfe"
version = "0.1.0"
edition = "2021"
publish = false

[dependencies]
anyhow = "1"
arc-swap = "1"
async-trait = "0.1"
bytes = "1"
clap = { version = "4", features = ["derive"] }
dashmap = "6"
http = "1"
http-body-util = "0.1"
hyper = { version = "1", features = ["full"] }
hyper-rustls = { version = "0.27", default-features = false, features = ["http1", "http2", "ring", "tls12", "logging"] }
hyper-util = { version = "0.1", features = ["client", "client-legacy", "server", "server-auto", "tokio", "http1", "http2"] }
notify = "6"
prometheus-client = "0.22"
rand = "0.8"
rustls = { version = "0.23", default-features = false, features = ["ring", "std", "tls12", "logging"] }
rustls-pemfile = "2"
serde = { version = "1", features = ["derive"] }
serde_json = "1"
thiserror = "1"
tokio = { version = "1", features = ["full"] }
tokio-rustls = { version = "0.26", default-features = false, features = ["ring", "tls12", "logging"] }
toml = "0.8"
tracing = "0.1"
tracing-subscriber = { version = "0.3", features = ["env-filter", "json"] }
webpki-roots = "0.26"
x509-parser = "0.16"

[dev-dependencies]
rcgen = { version = "0.13", default-features = false, features = ["pem", "ring"] }
