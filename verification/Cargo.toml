[package]
name = "aou_http"
version = "0.1.0"
edition = "2021"
publish = false

[dependencies]
serde_json = "1"
anyhow = "1"
napi = "2"
napi-derive = "2"
