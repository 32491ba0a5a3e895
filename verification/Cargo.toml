[package]
name = "wheel_metadata"
version = "0.1.0"
edition = "2021"
publish = false

[dependencies]
anyhow = "1"
async_zip = { version = "*", features = ["full"] }
clap = { version = "4", features = ["derive"] }
destream_json = "*"
futures = "0.3"
futures-util = { version = "0.3", features = ["io"] }
http = "1"
opendal = { version = "0.51", features = ["services-http", "services-monoiofs", "layers-tracing"] }
regex = "1"
tokio = { version = "1", features = ["full"] }
tokio-util = { version = "0.7", features = ["compat"] }
tracing-subscriber = { version = "0.3", features = ["env-filter"] }
url = "2"
