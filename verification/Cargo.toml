[package]
name = "llamesh"
version = "1.0.0"
edition = "2021"
publish = false

[dependencies]
anyhow = "1"
axum = "=0.8.9"
base64 = "=0.22.1"
chrono = "=0.4.45"
clap = { version = "4", features = ["derive"] }
config = { version = "=0.15.27", default-features = false, features = ["yaml"] }
dirs = "=7.0.0"
futures = "0.3"
hyper = { version = "1", features = ["server", "http1"] }
hyper-util = { version = "=0.1.21", features = ["tokio", "server", "http1", "service"] }
libc = "0.2"
logroller = "=0.1.12"
mdns-sd = "=0.21.7"
nix = { version = "=0.31.3", features = ["signal"] }
notify = "=8.2.1"
nvml-wrapper = "=0.13.0"
procfs = "=0.18.0"
rand = "0.9"
regex = "=1.13.1"
reqwest = { version = "=0.12.28", default-features = false, features = ["json", "stream"] }
serde = { version = "1", features = ["derive"] }
serde_json = "1"
serde_yaml = "=0.9.34"
sha2 = "=0.10.9"
shlex = "=1.3.0"
tokio = { version = "1", features = ["full"] }
tracing = "0.1"
tracing-appender = "0.2"
tracing-subscriber = { version = "=0.3.23", features = ["env-filter", "json"] }
ulid = "=1.2.1"
