[package]
name = "matching_api_client"
version = "0.1.0"
edition = "2021"
publish = false

[dependencies]
json = "*"
clap = "2"
config = "*"
csv = "*"
reqwest = { version = "*", default-features = false, features = ["blocking"] }
