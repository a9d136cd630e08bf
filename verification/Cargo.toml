[package]
name = "elm-bench"
version = "0.1.0"
edition = "2021"
publish = false

[dependencies]
glob = "=0.3.4"
include_dir = "=0.7.4"
pathdiff = "=0.2.3"
serde = { version = "=1.0.229", features = ["derive"] }
serde_json = "=1.0.154"
varj = "=0.1.0"
