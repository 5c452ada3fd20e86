[package]
name = "ddns"
version = "0.1.0"
edition = "2021"
publish = false

[dependencies]
sha2 = "*"
hmac = "*"
hex = "*"
chrono = "*"
serde_urlencoded = "*"
serde_json = "*"
url = "*"
local-ip-address = "*"
reqwest = { version = "*", default-features = false, features = ["blocking", "json", "rustls-tls"] }
