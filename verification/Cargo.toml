[package]
name = "prevue"
version = "0.1.0"
edition = "2021"
publish = false

[dependencies]
boa_engine = "=0.22.0"
html5ever = "=0.39.0"
markup5ever_rcdom = "=0.39.0"
serde_json = { version = "=1.0.151", features = ["preserve_order"] }
serde = "=1.0.229"
