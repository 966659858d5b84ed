[package]
name = "rustdoc_json"
version = "0.1.0"
edition = "2021"
publish = false

[dependencies]
rls-analysis = "*"
clap = "*"

[dev-dependencies]
serde_json = "*"
