[package]
name = "serde_json_schema"
version = "0.1.0"
edition = "2021"
publish = false

[dependencies]
serde_json = "*"
url = "*"
json-pointer = "*"
