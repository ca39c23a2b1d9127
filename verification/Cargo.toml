[package]
name = "nzbrs"
version = "0.1.0"
edition = "2021"
publish = false

[dependencies]
anyhow = "1"
async-trait = "0.1"
crc32fast = "1"
deadpool = "0.9"
futures = "0.3"
once_cell = "1"
positioned-io = "*"
serde = { version = "1", features = ["derive"] }
serde-xml-rs = "0.6"
tokio = { version = "1", features = ["full"] }
tokio-rustls = "0.24"
webpki-roots = "0.25"
