[package]
name = "openshell_inspect"
version = "0.1.0"
edition = "2021"
publish = false

[dependencies]
clap = { version = "4", features = ["derive", "env"] }
k8s-openapi = { version = "0.21", features = ["v1_26"] }
kube = { version = "0.90", default-features = false, features = ["client"] }
miette = "7"
serde_json = "1"
tokio = { version = "1", features = ["io-util"] }
tower-mcp-types = "*"
tracing = "0.1"
tracing-subscriber = { version = "0.3", features = ["env-filter"] }
