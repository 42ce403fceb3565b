[package]
name = "openshell_drivers"
version = "0.1.0"
edition = "2021"
publish = false

[dependencies]
serde = { version = "=1.0.229", features = ["derive"] }
serde_json = "=1.0.154"
serde_yml = "=0.0.11"
kube = { version = "=0.90.0", features = ["runtime", "derive"] }
k8s-openapi = { version = "=0.21.1", features = ["v1_26"] }
tokio = { version = "=1.54.1", features = ["net", "process", "sync", "time", "rt", "rt-multi-thread", "macros", "io-util"] }
tokio-stream = "=0.1.19"
futures = "0.3"
tonic = "=0.12.3"
hyper = { version = "=1.12.0", features = ["client", "http1"] }
hyper-util = { version = "=0.1.21", features = ["tokio"] }
http-body-util = "0.1"
miette = "=7.6.0"
thiserror = "2"
tracing = "0.1"
dirs = "=7.0.0"
tempfile = "3"
owo-colors = "=4.4.0"
