[package]
name = "suds"
version = "0.1.0"
edition = "2021"
publish = false

[dependencies]
quick-xml = "*"
url = "2"

[dependencies.reqwest]
version = "0.12"
default-features = false
features = ["blocking"]
