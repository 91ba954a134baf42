[package]
name = "curl_parser"
version = "0.1.0"
edition = "2021"
publish = false

[dependencies]
base64 = "*"
form_urlencoded = "*"
minijinja = "*"
reqwest = { version = "*", default-features = false, features = ["rustls-tls"] }
