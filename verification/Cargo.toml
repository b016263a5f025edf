[package]
name = "trust_runtime"
version = "0.1.0"
edition = "2021"
publish = false

[dependencies]
sha2 = "0.10"
base64 = "0.21"
rand = "0.8"
glob = "0.3"
serde = { version = "1", features = ["derive"] }
serde_json = "1"
toml = "0.8"
rumqttc = "0.24"
rustls = "0.21"
rustls-pemfile = "1"
tiny_http = "0.12"
ureq = "2"
