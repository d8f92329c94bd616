[package]
name = "kubevent"
version = "0.1.0"
edition = "2021"
publish = false

[dependencies]
cloudevents-sdk = "0.3"
log = "0.4"
serde = { version = "1", features = ["derive"] }
serde_json = "1"
anyhow = "1"
chrono = "0.4"
k8s-openapi = { version = "0.10", default-features = false, features = ["v1_19"] }
kube = { version = "0.45", default-features = false, features = ["rustls-tls"] }
kube-runtime = { version = "0.45", default-features = false }
kube-derive = "0.45"
tokio = { version = "0.2", features = ["full"] }
futures = "0.3"
env_logger = "0.8"
dirs = "3"
clap = "=3.0.0-beta.2"
actix-web = "3"
actix-rt = "1"
actix-web-prom = "0.5"
snafu = "0.6"
