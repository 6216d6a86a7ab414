[package]
name = "waycal"
version = "0.1.0"
edition = "2021"
publish = false

[dependencies]
attohttpc = { version = "*", default-features = false, features = ["tls-rustls-webpki-roots"] }
base64 = "0.22"
chrono = { version = "0.4", features = ["serde"] }
chrono-tz = "*"
ical = "*"
roxmltree = "*"
serde = { version = "1", features = ["derive"] }
serde_json = "1"
toml = "*"
uuid = { version = "1", features = ["v4"] }
