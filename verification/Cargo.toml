[package]
name = "datamodel"
version = "0.1.0"
edition = "2021"
publish = false

[dependencies]
indexmap = "2"
uuid = { version = "1", features = ["v4"] }
thiserror = "2"
mint = "0.5"
