[package]
name = "tabjson"
version = "0.1.0"
edition = "2021"
publish = false

[dependencies]
csv = "1"
jaq-interpret = "1"
jaq-parse = "1"
json-objects-to-csv = "0.1"
serde_json = { version = "1", features = ["preserve_order"] }
