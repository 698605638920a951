[package]
name = "prometheus_exporter"
version = "0.1.0"
edition = "2021"
publish = false

[dependencies]
async-trait = "0.1"
futures = "0.3"
hyper = "0.13"
indexmap = "1.6"
inventory = "0.1"
serde = { version = "1", features = ["derive"] }
snafu = "0.6"
stream-cancel = "0.6"
tokio = { version = "0.2", features = ["rt-core", "time", "macros"] }
toml = "0.5"
typetag = "0.1"
