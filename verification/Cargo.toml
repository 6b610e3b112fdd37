[package]
name = "garage"
version = "0.1.0"
edition = "2021"
publish = false

[dependencies]
base64 = "0.13"
hex = "0.4"
md-5 = "0.9"
sha2 = "0.9"
fastcdc = "1.0"
roxmltree = "0.14"
hyper = { version = "0.14", default-features = false }
tokio = { version = "1", default-features = false, features = ["sync"] }
futures = "0.3"
