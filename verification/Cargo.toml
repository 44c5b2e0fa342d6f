[package]
name = "dict_render"
version = "0.1.0"
edition = "2021"
publish = false

[dependencies]
itertools = "*"
colored = "*"
serde_json = "*"
reqwest = { version = "*", default-features = false, features = ["blocking", "json", "rustls-tls"] }
