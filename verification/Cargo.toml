[package]
name = "the_page"
version = "0.1.0"
edition = "2021"
publish = false

[dependencies]
base64 = "=0.22.1"
chrono = { version = "=0.4.45", features = ["serde"] }
image = { version = "=0.25.10", default-features = false, features = ["png", "jpeg"] }
libc = "=0.2.191"
pulldown-cmark = { version = "=0.12.2", default-features = false }
serde = { version = "=1.0.229", features = ["derive"] }
serde_json = "=1.0.154"
serde_yaml_ng = "=0.10.0"
sha2 = "=0.10.9"
tempfile = "=3.27.0"
ulid = "=1.2.1"
